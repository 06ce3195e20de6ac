//! The result parser: raw captured text in, a structured report out. A line
//! either matches the fixed case grammar
//! `Input: (<args>) => Output: <int> | Expected: <int> | <marker> | Time: <float>ms`,
//! or sets the peak-memory figure when it starts with `Memory:`. Per-case
//! times are read as fixed-point microseconds. With no matching case line at
//! all, the whole result collapses to one generic failure — deliberately
//! conflating empty output, a crash, and a timeout sentinel.
use vstd::prelude::*;
use crate::complexity::{
    estimate_space_complexity, estimate_time_complexity, spec_space_label, spec_time_label,
};
use crate::digits::{
    digit_of, digit_val, is_digit, parse_i64_range, spec_digits_val, spec_parse_i64,
};
use crate::text::{
    copy_range, find_from, has_at, lemma_find_bounds, lemma_find_shift, match_at, spec_find,
    spec_lines, spec_split_commas, spec_trim, split_lines, str_chars, trim_range, views_of,
};

verus! {

use vstd::string::StringExecFns;

/// What one matched case line says, as mathematical values.
pub ghost struct CaseData {
    pub input: Seq<int>,
    pub output: int,
    pub expected: int,
    pub passed: bool,
    pub time_us: nat,
}

/// One re-parsed case line: echoed inputs, observed and expected outputs,
/// the pass marker, and the case time in microseconds (saturating).
pub struct CaseRecord {
    pub input: Vec<i64>,
    pub output: i64,
    pub expected: i64,
    pub passed: bool,
    pub time_us: u64,
}

impl View for CaseRecord {
    type V = CaseData;

    open spec fn view(&self) -> CaseData {
        CaseData {
            input: self.input@.map_values(|x: i64| x as int),
            output: self.output as int,
            expected: self.expected as int,
            passed: self.passed,
            time_us: self.time_us as nat,
        }
    }
}

/// Aggregate metrics over all matched case lines.
pub struct ExecutionSummary {
    pub total: usize,
    pub passed: usize,
    pub total_time_us: u64,
    pub peak_memory_kb: i64,
    pub time_complexity: String,
    pub space_complexity: String,
}

/// The structured report: per-case records plus the aggregate summary.
pub struct ExecutionReport {
    pub summary: ExecutionSummary,
    pub cases: Vec<CaseRecord>,
}

/// Either a report, or the single generic failure for text with no matching
/// case line.
pub enum ParseOutcome {
    Failure,
    Report(ExecutionReport),
}

/// First position at or past `i` holding a non-digit.
pub open spec fn digits_end(s: Seq<char>, i: int) -> int
    decreases s.len() - i,
{
    if 0 <= i < s.len() && is_digit(s[i]) {
        digits_end(s, i + 1)
    } else {
        i
    }
}

/// End of an optional minus sign and at least one digit; `i` itself when no
/// such integer starts at `i`.
pub open spec fn int_end(s: Seq<char>, i: int) -> int {
    if 0 <= i < s.len() && s[i] == '-' {
        if digits_end(s, i + 1) > i + 1 {
            digits_end(s, i + 1)
        } else {
            i
        }
    } else {
        digits_end(s, i)
    }
}

pub open spec fn is_timec(c: char) -> bool {
    is_digit(c) || c == '.'
}

/// First position at or past `i` holding neither a digit nor a dot.
pub open spec fn timec_end(s: Seq<char>, i: int) -> int
    decreases s.len() - i,
{
    if 0 <= i < s.len() && is_timec(s[i]) {
        timec_end(s, i + 1)
    } else {
        i
    }
}

/// Microseconds contributed by up to three fractional-millisecond digits.
pub open spec fn frac3(fp: Seq<char>) -> nat {
    if fp.len() == 0 {
        0
    } else if fp.len() == 1 {
        (digit_val(fp[0]) * 100) as nat
    } else if fp.len() == 2 {
        (digit_val(fp[0]) * 100 + digit_val(fp[1]) * 10) as nat
    } else {
        (digit_val(fp[0]) * 100 + digit_val(fp[1]) * 10 + digit_val(fp[2])) as nat
    }
}

/// A decimal-or-dot run read as fixed-point microseconds: the integer part in
/// milliseconds, then up to three fractional digits; a malformed number (two
/// dots, or a bare dot) gives 0.
pub open spec fn spec_time_us(t: Seq<char>) -> nat {
    match spec_find(t, seq!['.'], 0) {
        None => (spec_digits_val(t) * 1000) as nat,
        Some(p) => {
            let ip = t.take(p);
            let fp = t.skip(p + 1);
            if spec_find(fp, seq!['.'], 0) is Some {
                0
            } else if ip.len() == 0 && fp.len() == 0 {
                0
            } else {
                (spec_digits_val(ip) * 1000 + frac3(fp)) as nat
            }
        },
    }
}

/// Saturation of a count into the `u64` range.
pub open spec fn sat64(n: nat) -> nat {
    if n > 0xffff_ffff_ffff_ffff {
        0xffff_ffff_ffff_ffff as nat
    } else {
        n
    }
}

/// The echoed argument list re-split on commas and re-parsed, each piece
/// trimmed; blank text gives the empty sequence.
pub open spec fn spec_parse_args(args: Seq<char>) -> Seq<int> {
    if spec_trim(args).len() == 0 {
        Seq::empty()
    } else {
        spec_split_commas(args).map_values(|p: Seq<char>| spec_parse_i64(spec_trim(p)))
    }
}

/// The case grammar, anchored at both ends of the line.
pub open spec fn spec_case_line(line: Seq<char>) -> Option<CaseData> {
    if !match_at(line, 0, "Input: ("@) {
        None
    } else {
        match spec_find(line, ") => Output: "@, 8) {
            None => None,
            Some(j) => {
                let args = line.subrange(8, j);
                let p1 = j + 13;
                let oe = int_end(line, p1);
                if oe <= p1 {
                    None
                } else if !match_at(line, oe, " | Expected: "@) {
                    None
                } else {
                    let p2 = oe + 13;
                    let ee = int_end(line, p2);
                    if ee <= p2 {
                        None
                    } else {
                        let pass_m = match_at(line, ee, " | \u{2705} PASS | Time: "@);
                        let fail_m = match_at(line, ee, " | \u{274c} FAIL | Time: "@);
                        if !pass_m && !fail_m {
                            None
                        } else {
                            let p3 = ee + 18;
                            let te = timec_end(line, p3);
                            if te <= p3 {
                                None
                            } else if te + 2 != line.len() || !match_at(line, te, "ms"@) {
                                None
                            } else {
                                Some(
                                    CaseData {
                                        input: spec_parse_args(args),
                                        output: spec_parse_i64(line.subrange(p1, oe)),
                                        expected: spec_parse_i64(line.subrange(p2, ee)),
                                        passed: pass_m,
                                        time_us: sat64(spec_time_us(line.subrange(p3, te))),
                                    },
                                )
                            }
                        }
                    }
                }
            },
        }
    }
}

/// The value of a `Memory:` line: the text between the first colon and the
/// next one (or the end), trimmed, with trailing ` KB` suffixes removed.
pub open spec fn strip_kb(s: Seq<char>) -> Seq<char>
    decreases s.len(),
{
    if s.len() >= 3 && s.subrange(s.len() - 3, s.len() as int) == " KB"@ {
        strip_kb(s.take(s.len() - 3))
    } else {
        s
    }
}

pub open spec fn spec_memory_line(line: Seq<char>) -> Option<int> {
    if !match_at(line, 0, "Memory:"@) {
        None
    } else {
        let seg_end = match spec_find(line, seq![':'], 7) {
            None => line.len() as int,
            Some(k) => k,
        };
        Some(spec_parse_i64(strip_kb(spec_trim(line.subrange(7, seg_end)))))
    }
}

/// The case records of a line sequence, in order.
pub open spec fn records_of(ls: Seq<Seq<char>>) -> Seq<CaseData>
    decreases ls.len(),
{
    if ls.len() == 0 {
        Seq::empty()
    } else {
        let rest = records_of(ls.drop_last());
        match spec_case_line(ls.last()) {
            Some(c) => rest.push(c),
            None => rest,
        }
    }
}

/// The last memory figure announced by a non-case line, 0 with none.
pub open spec fn memory_of(ls: Seq<Seq<char>>) -> int
    decreases ls.len(),
{
    if ls.len() == 0 {
        0
    } else if spec_case_line(ls.last()) is None && spec_memory_line(ls.last()) is Some {
        spec_memory_line(ls.last())->0
    } else {
        memory_of(ls.drop_last())
    }
}

pub open spec fn count_passed(rs: Seq<CaseData>) -> nat
    decreases rs.len(),
{
    if rs.len() == 0 {
        0nat
    } else {
        (count_passed(rs.drop_last()) + if rs.last().passed {
            1nat
        } else {
            0nat
        }) as nat
    }
}

pub open spec fn sat_add(a: nat, b: nat) -> nat {
    if a + b > 0xffff_ffff_ffff_ffff {
        0xffff_ffff_ffff_ffff as nat
    } else {
        (a + b) as nat
    }
}

/// Sum of the per-case times, saturating in the `u64` range.
pub open spec fn sum_time_sat(rs: Seq<CaseData>) -> nat
    decreases rs.len(),
{
    if rs.len() == 0 {
        0nat
    } else {
        sat_add(sum_time_sat(rs.drop_last()), rs.last().time_us)
    }
}

/// Everything `parse_output` promises of its result: the report is a function
/// of the raw text alone.
pub open spec fn parse_post(raw: Seq<char>, r: ParseOutcome) -> bool {
    let ls = spec_lines(raw);
    let recs = records_of(ls);
    match r {
        ParseOutcome::Failure => recs.len() == 0,
        ParseOutcome::Report(rep) => recs.len() > 0 && rep.cases@.map_values(|c: CaseRecord| c@)
            == recs && rep.summary.total == recs.len() && rep.summary.passed == count_passed(recs)
            && rep.summary.total_time_us == sum_time_sat(recs) && rep.summary.peak_memory_kb
            == memory_of(ls) && rep.summary.time_complexity@ == spec_time_label(sum_time_sat(recs))
            && rep.summary.space_complexity@ == spec_space_label(memory_of(ls)),
    }
}

fn digit_or0(c: char) -> (r: u64)
    ensures
        r as int == digit_val(c),
{
    match digit_of(c) {
        Some(d) => d as u64,
        None => 0,
    }
}

fn is_digit_exec(c: char) -> (r: bool)
    ensures
        r == is_digit(c),
{
    c == '0' || c == '1' || c == '2' || c == '3' || c == '4' || c == '5' || c == '6' || c == '7'
        || c == '8' || c == '9'
}

fn is_timec_exec(c: char) -> (r: bool)
    ensures
        r == is_timec(c),
{
    is_digit_exec(c) || c == '.'
}

#[verifier::loop_isolation(false)]
fn scan_digits(s: &Vec<char>, from: usize) -> (r: usize)
    requires
        from <= s@.len(),
    ensures
        from <= r <= s@.len(),
        r as int == digits_end(s@, from as int),
{
    let mut i: usize = from;
    while i < s.len() && is_digit_exec(s[i])
        invariant
            from <= i <= s@.len(),
            digits_end(s@, from as int) == digits_end(s@, i as int),
        decreases s@.len() - i,
    {
        i = i + 1;
    }
    i
}

#[verifier::loop_isolation(false)]
fn scan_timec(s: &Vec<char>, from: usize) -> (r: usize)
    requires
        from <= s@.len(),
    ensures
        from <= r <= s@.len(),
        r as int == timec_end(s@, from as int),
{
    let mut i: usize = from;
    while i < s.len() && is_timec_exec(s[i])
        invariant
            from <= i <= s@.len(),
            timec_end(s@, from as int) == timec_end(s@, i as int),
        decreases s@.len() - i,
    {
        i = i + 1;
    }
    i
}

fn scan_int_end(s: &Vec<char>, from: usize) -> (r: usize)
    requires
        from <= s@.len(),
    ensures
        from <= r <= s@.len(),
        r as int == int_end(s@, from as int),
{
    if from < s.len() && s[from] == '-' {
        let e = scan_digits(s, from + 1);
        if e > from + 1 {
            e
        } else {
            from
        }
    } else {
        scan_digits(s, from)
    }
}

/// Digit-run value with an explicit out-of-`u64`-range flag.
#[verifier::loop_isolation(false)]
fn digits_val_sat(s: &Vec<char>, lo: usize, hi: usize) -> (r: (u64, bool))
    requires
        lo <= hi <= s@.len(),
    ensures
        !r.1 ==> r.0 as nat == spec_digits_val(s@.subrange(lo as int, hi as int)),
        r.1 ==> spec_digits_val(s@.subrange(lo as int, hi as int)) > 0xffff_ffff_ffff_ffff,
{
    let mut acc: u128 = 0;
    let mut huge = false;
    let mut i: usize = lo;
    while i < hi
        invariant
            lo <= i <= hi <= s@.len(),
            !huge ==> acc == spec_digits_val(s@.subrange(lo as int, i as int)) && acc
                <= 0xffff_ffff_ffff_ffff,
            huge ==> spec_digits_val(s@.subrange(lo as int, i as int)) > 0xffff_ffff_ffff_ffff,
        decreases hi - i,
    {
        let d = digit_or0(s[i]);
        proof {
            let pre = s@.subrange(lo as int, i as int);
            let cur = s@.subrange(lo as int, i + 1);
            assert(cur.drop_last() =~= pre);
            assert(cur.last() == s@[i as int]);
            if huge {
                let v = spec_digits_val(pre);
                assert(v * 10 >= v) by {
                    assert(v * 10 - v == 9 * v);
                }
            }
        }
        if !huge {
            acc = acc * 10 + (d as u128);
            if acc > 0xffff_ffff_ffff_ffff {
                huge = true;
            }
        }
        i = i + 1;
    }
    if huge {
        (0, true)
    } else {
        (acc as u64, false)
    }
}

/// Reads the time run as saturating fixed-point microseconds.
fn time_value(t: &Vec<char>) -> (r: u64)
    ensures
        r as nat == sat64(spec_time_us(t@)),
{
    proof {
        reveal_strlit(".");
        assert("."@ =~= seq!['.']);
    }
    match find_from(t, 0, ".") {
        None => {
            let (v, huge) = digits_val_sat(t, 0, t.len());
            proof {
                assert(t@.subrange(0, t@.len() as int) =~= t@);
            }
            if huge {
                proof {
                    let n = spec_digits_val(t@);
                    assert(n * 1000 >= n) by {
                        assert(n * 1000 - n == 999 * n);
                    }
                }
                u64::MAX
            } else {
                let total: u128 = (v as u128) * 1000;
                if total > u64::MAX as u128 {
                    u64::MAX
                } else {
                    total as u64
                }
            }
        },
        Some(p) => {
            proof {
                lemma_find_bounds(t@, seq!['.'], 0);
                assert(match_at(t@, p as int, seq!['.']));
                assert(p + 1 <= t@.len());
            }
            let tn = t.len();
            proof {
                assert(p + 1 <= tn);
            }
            let ghost fp = t@.skip(p + 1);
            proof {
                lemma_find_shift(t@, seq!['.'], p + 1, p + 1);
            }
            match find_from(t, p + 1, ".") {
                Some(_) => {
                    return 0;
                },
                None => {
                    if p == 0 && p + 1 == t.len() {
                        return 0;
                    }
                    let (v, huge) = digits_val_sat(t, 0, p);
                    proof {
                        assert(t@.subrange(0, p as int) =~= t@.take(p as int));
                    }
                    let flen = t.len() - (p + 1);
                    let d0: u64 = if flen >= 1 {
                        digit_or0(t[p + 1])
                    } else {
                        0
                    };
                    let d1: u64 = if flen >= 2 {
                        digit_or0(t[p + 2])
                    } else {
                        0
                    };
                    let d2: u64 = if flen >= 3 {
                        digit_or0(t[p + 3])
                    } else {
                        0
                    };
                    let frac: u64 = d0 * 100 + d1 * 10 + d2;
                    proof {
                        if flen >= 1 {
                            assert(fp[0] == t@[p + 1]);
                        }
                        if flen >= 2 {
                            assert(fp[1] == t@[p + 2]);
                        }
                        if flen >= 3 {
                            assert(fp[2] == t@[p + 3]);
                        }
                        assert(frac as nat == frac3(fp));
                    }
                    if huge {
                        proof {
                            let n = spec_digits_val(t@.take(p as int));
                            assert(n * 1000 >= n) by {
                                assert(n * 1000 - n == 999 * n);
                            }
                        }
                        u64::MAX
                    } else {
                        let total: u128 = (v as u128) * 1000 + (frac as u128);
                        if total > u64::MAX as u128 {
                            u64::MAX
                        } else {
                            total as u64
                        }
                    }
                },
            }
        },
    }
}

/// Re-splits and re-parses the echoed argument list of one case line.
#[verifier::loop_isolation(false)]
fn parse_args_range(line: &Vec<char>, lo: usize, hi: usize) -> (r: Vec<i64>)
    requires
        lo <= hi <= line@.len(),
    ensures
        r@.map_values(|x: i64| x as int) == spec_parse_args(line@.subrange(lo as int, hi as int)),
{
    let argv = copy_range(line, lo, hi);
    proof {
        assert(argv@.subrange(0, argv@.len() as int) =~= argv@);
    }
    let (a, b) = trim_range(&argv, 0, argv.len());
    if a == b {
        let out: Vec<i64> = Vec::new();
        proof {
            assert(out@.map_values(|x: i64| x as int) =~= Seq::<int>::empty());
        }
        return out;
    }
    let ghost f = |p: Seq<char>| spec_parse_i64(spec_trim(p));
    let mut out: Vec<i64> = Vec::new();
    let mut pos: usize = 0;
    let ghost mut done: Seq<Seq<char>> = Seq::empty();
    proof {
        reveal_strlit(",");
        assert(","@ =~= seq![',']);
        assert(argv@.skip(0) =~= argv@);
    }
    loop
        invariant
            pos <= argv@.len(),
            spec_split_commas(argv@) =~= done + spec_split_commas(argv@.skip(pos as int)),
            out@.len() == done.len(),
            forall|t: int| 0 <= t < done.len() ==> out@[t] as int == f(done[t]),
        decreases argv@.len() - pos,
    {
        let ghost rest = argv@.skip(pos as int);
        match find_from(&argv, pos, ",") {
            Some(k) => {
                proof {
                    lemma_find_bounds(argv@, seq![','], pos as int);
                    lemma_find_shift(argv@, seq![','], pos as int, pos as int);
                    assert(rest.take(k - pos) =~= argv@.subrange(pos as int, k as int));
                    assert(rest.skip(k - pos + 1) =~= argv@.skip(k + 1));
                    assert(spec_split_commas(rest) == seq![
                        argv@.subrange(pos as int, k as int),
                    ] + spec_split_commas(argv@.skip(k + 1)));
                }
                let (ta, tb) = trim_range(&argv, pos, k);
                let v = parse_i64_range(&argv, ta, tb);
                out.push(v);
                proof {
                    done = done.push(argv@.subrange(pos as int, k as int));
                    assert(spec_split_commas(argv@) =~= done + spec_split_commas(
                        argv@.skip(k + 1),
                    ));
                }
                pos = k + 1;
            },
            None => {
                proof {
                    lemma_find_shift(argv@, seq![','], pos as int, pos as int);
                    assert(spec_split_commas(rest) == seq![rest]);
                }
                let (ta, tb) = trim_range(&argv, pos, argv.len());
                proof {
                    assert(argv@.subrange(pos as int, argv@.len() as int) =~= rest);
                }
                let v = parse_i64_range(&argv, ta, tb);
                out.push(v);
                proof {
                    done = done.push(rest);
                    assert(spec_split_commas(argv@) =~= done);
                    assert(spec_trim(argv@).len() != 0);
                    assert(out@.map_values(|x: i64| x as int) =~= spec_split_commas(
                        argv@,
                    ).map_values(f));
                }
                return out;
            },
        }
    }
}

/// Tries the case grammar on one line.
pub fn parse_case_line(line: &Vec<char>) -> (r: Option<CaseRecord>)
    ensures
        match r {
            None => spec_case_line(line@) is None,
            Some(rec) => spec_case_line(line@) == Some(rec@),
        },
{
    proof {
        reveal_strlit("Input: (");
        reveal_strlit(") => Output: ");
        reveal_strlit(" | Expected: ");
        reveal_strlit(" | \u{2705} PASS | Time: ");
        reveal_strlit(" | \u{274c} FAIL | Time: ");
        reveal_strlit("ms");
    }
    if !has_at(line, 0, "Input: (") {
        return None;
    }
    let j = match find_from(line, 8, ") => Output: ") {
        None => {
            return None;
        },
        Some(j) => j,
    };
    proof {
        lemma_find_bounds(line@, ") => Output: "@, 8);
        assert(match_at(line@, j as int, ") => Output: "@));
        assert(j + 13 <= line@.len());
    }
    let lnlen = line.len();
    proof {
        assert(j + 13 <= lnlen);
    }
    let p1 = j + 13;
    let oe = scan_int_end(line, p1);
    if oe <= p1 {
        return None;
    }
    let out_v = parse_i64_range(line, p1, oe);
    if !has_at(line, oe, " | Expected: ") {
        return None;
    }
    proof {
        assert(match_at(line@, oe as int, " | Expected: "@));
        assert(oe + 13 <= lnlen);
    }
    let p2 = oe + 13;
    let ee = scan_int_end(line, p2);
    if ee <= p2 {
        return None;
    }
    let exp_v = parse_i64_range(line, p2, ee);
    let pass_m = has_at(line, ee, " | \u{2705} PASS | Time: ");
    let fail_m = has_at(line, ee, " | \u{274c} FAIL | Time: ");
    if !pass_m && !fail_m {
        return None;
    }
    let p3 = ee + 18;
    let te = scan_timec(line, p3);
    if te <= p3 {
        return None;
    }
    if !has_at(line, te, "ms") {
        return None;
    }
    if te + 2 != line.len() {
        return None;
    }
    let input = parse_args_range(line, 8, j);
    let tvec = copy_range(line, p3, te);
    let time_us = time_value(&tvec);
    let rec = CaseRecord { input, output: out_v, expected: exp_v, passed: pass_m, time_us };
    proof {
        assert(rec@.input == spec_parse_args(line@.subrange(8, j as int)));
        assert(spec_case_line(line@) == Some(rec@));
    }
    Some(rec)
}

/// Tries the memory-line grammar on one line.
#[verifier::loop_isolation(false)]
pub fn parse_memory_line(line: &Vec<char>) -> (r: Option<i64>)
    ensures
        match r {
            None => spec_memory_line(line@) is None,
            Some(v) => spec_memory_line(line@) == Some(v as int),
        },
{
    proof {
        reveal_strlit("Memory:");
        reveal_strlit(":");
        assert(":"@ =~= seq![':']);
        reveal_strlit(" KB");
    }
    if !has_at(line, 0, "Memory:") {
        return None;
    }
    let seg_end = match find_from(line, 7, ":") {
        None => line.len(),
        Some(k) => {
            proof {
                lemma_find_bounds(line@, ":"@, 7);
            }
            k
        },
    };
    let (a, mut b) = trim_range(line, 7, seg_end);
    while b - a >= 3 && has_at(line, b - 3, " KB")
        invariant
            a <= b <= line@.len(),
            strip_kb(spec_trim(line@.subrange(7, seg_end as int))) == strip_kb(
                line@.subrange(a as int, b as int),
            ),
        decreases b,
    {
        proof {
            let cur = line@.subrange(a as int, b as int);
            assert(cur.subrange(cur.len() - 3, cur.len() as int) =~= line@.subrange(
                b - 3,
                b as int,
            ));
            assert(cur.take(cur.len() - 3) =~= line@.subrange(a as int, b - 3));
        }
        b = b - 3;
    }
    proof {
        let cur = line@.subrange(a as int, b as int);
        if cur.len() >= 3 {
            assert(cur.subrange(cur.len() - 3, cur.len() as int) =~= line@.subrange(
                b - 3,
                b as int,
            ));
        }
        assert(strip_kb(cur) == cur);
    }
    Some(parse_i64_range(line, a, b))
}

/// Parses raw captured text into the structured report, or the single
/// generic failure when no line matches the case grammar.
#[verifier::loop_isolation(false)]
pub fn parse_output(raw: &str) -> (r: ParseOutcome)
    ensures
        parse_post(raw@, r),
{
    let chars = str_chars(raw);
    let lines = split_lines(&chars);
    let ghost ls = spec_lines(raw@);
    let mut cases: Vec<CaseRecord> = Vec::new();
    let mut passed: usize = 0;
    let mut time_sum: u64 = 0;
    let mut mem: i64 = 0;
    let n = lines.len();
    let mut i: usize = 0;
    proof {
        assert(views_of(lines@) == ls);
        assert(ls.take(0) =~= Seq::<Seq<char>>::empty());
        assert(cases@.map_values(|c: CaseRecord| c@) =~= records_of(ls.take(0)));
    }
    while i < n
        invariant
            0 <= i <= n,
            n == lines@.len(),
            ls == views_of(lines@),
            ls == spec_lines(raw@),
            cases@.map_values(|c: CaseRecord| c@) == records_of(ls.take(i as int)),
            passed <= cases@.len(),
            passed as nat == count_passed(records_of(ls.take(i as int))),
            time_sum as nat == sum_time_sat(records_of(ls.take(i as int))),
            mem as int == memory_of(ls.take(i as int)),
        decreases n - i,
    {
        let ghost pre = ls.take(i as int);
        let ghost cur = ls.take(i + 1);
        proof {
            assert(cur.drop_last() =~= pre);
            assert(cur.last() == ls[i as int]);
            assert(lines@[i as int]@ == ls[i as int]);
        }
        let ghost old_cases = cases@;
        let line = &lines[i];
        match parse_case_line(line) {
            Some(rec) => {
                let t = rec.time_us;
                let was_passed = rec.passed;
                cases.push(rec);
                proof {
                    assert(cases@.map_values(|c: CaseRecord| c@) =~= old_cases.map_values(
                        |c: CaseRecord| c@,
                    ).push(cases@.last()@));
                    assert(records_of(cur) =~= records_of(pre).push(cases@.last()@));
                    assert(records_of(cur).drop_last() =~= records_of(pre));
                }
                let clen = cases.len();
                if was_passed {
                    proof {
                        assert(cases@.len() == old_cases.len() + 1);
                        assert(passed < clen);
                    }
                    passed = passed + 1;
                }
                time_sum = if time_sum > u64::MAX - t {
                    u64::MAX
                } else {
                    time_sum + t
                };
            },
            None => {
                match parse_memory_line(line) {
                    Some(v) => {
                        mem = v;
                    },
                    None => {
                    },
                }
                proof {
                    assert(records_of(cur) =~= records_of(pre));
                }
            },
        }
        i = i + 1;
    }
    proof {
        assert(ls.take(n as int) =~= ls);
    }
    if cases.len() == 0 {
        proof {
            assert(records_of(ls).len() == cases@.map_values(|c: CaseRecord| c@).len());
        }
        ParseOutcome::Failure
    } else {
        let total = cases.len();
        let time_complexity = String::from_str(estimate_time_complexity(time_sum));
        let space_complexity = String::from_str(estimate_space_complexity(mem));
        let summary = ExecutionSummary {
            total,
            passed,
            total_time_us: time_sum,
            peak_memory_kb: mem,
            time_complexity,
            space_complexity,
        };
        proof {
            assert(records_of(ls).len() == cases@.map_values(|c: CaseRecord| c@).len());
        }
        ParseOutcome::Report(ExecutionReport { summary, cases })
    }
}

} // verus!

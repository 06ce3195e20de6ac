//! The library-wide laws: what holds of every parse, and the round trip of
//! an argument list through the textual grammar.
use vstd::prelude::*;
use crate::codegen::spec_args_join;
use crate::digits::{
    digit_char, digit_val, is_digit, lemma_int_str_chars, lemma_nat_str, lemma_parse_int_str, spec_int_str,
    spec_nat_str, spec_parse_i64,
};
use crate::parser::{
    CaseData, CaseRecord, ParseOutcome, count_passed, frac3, int_end, parse_post, records_of,
    sat64, spec_case_line, spec_parse_args, spec_time_us,
};
use crate::text::{
    is_ws, lemma_find_first, strip_cr, lemma_find_is_none, lemma_match1, lemma_split_concat, lemma_trim_id,
    match_at, spec_find, spec_lines, spec_split_commas, spec_trim, spec_trim_back, spec_trim_front,
};

verus! {

pub proof fn lemma_count_passed_le(rs: Seq<crate::parser::CaseData>)
    ensures
        count_passed(rs) <= rs.len(),
    decreases rs.len(),
{
    if rs.len() > 0 {
        lemma_count_passed_le(rs.drop_last());
    }
}

pub proof fn lemma_count_passed_all(rs: Seq<crate::parser::CaseData>)
    requires
        forall|i: int| 0 <= i < rs.len() ==> (#[trigger] rs[i]).passed,
    ensures
        count_passed(rs) == rs.len(),
    decreases rs.len(),
{
    if rs.len() > 0 {
        let pre = rs.drop_last();
        assert(forall|i: int| 0 <= i < pre.len() ==> (#[trigger] pre[i]).passed) by {
            assert(forall|i: int| 0 <= i < pre.len() ==> pre[i] == rs[i]);
        }
        lemma_count_passed_all(pre);
        assert(rs.last().passed);
    }
}

/// Two results of parsing agree exactly when they describe the same report.
pub open spec fn same_outcome(a: ParseOutcome, b: ParseOutcome) -> bool {
    match a {
        ParseOutcome::Failure => b is Failure,
        ParseOutcome::Report(x) => match b {
            ParseOutcome::Failure => false,
            ParseOutcome::Report(y) => x.summary.total == y.summary.total && x.summary.passed
                == y.summary.passed && x.summary.total_time_us == y.summary.total_time_us
                && x.summary.peak_memory_kb == y.summary.peak_memory_kb
                && x.summary.time_complexity@ == y.summary.time_complexity@
                && x.summary.space_complexity@ == y.summary.space_complexity@ && x.cases@.map_values(
                |c: CaseRecord| c@,
            ) == y.cases@.map_values(|c: CaseRecord| c@),
        },
    }
}

/// Parsing is a pure function of the raw text: two parses of the same text
/// describe the same structured result.
pub proof fn lemma_parse_pure(raw: Seq<char>, r1: ParseOutcome, r2: ParseOutcome)
    requires
        parse_post(raw, r1),
        parse_post(raw, r2),
    ensures
        same_outcome(r1, r2),
{
}

/// Text with no matching case line gives exactly the generic failure — never
/// a report whose summary says zero cases — and a report always counts at
/// least one case.
pub proof fn lemma_failure_iff_no_cases(raw: Seq<char>, r: ParseOutcome)
    requires
        parse_post(raw, r),
    ensures
        (r is Failure) <==> records_of(spec_lines(raw)).len() == 0,
        r matches ParseOutcome::Report(rep) ==> rep.summary.total >= 1,
{
}

/// The pass rate is well-formed: a report counts at least one case, and the
/// passed count never exceeds the total, so passed/total lies in [0, 1].
pub proof fn lemma_pass_rate(raw: Seq<char>, r: ParseOutcome)
    requires
        parse_post(raw, r),
        r matches ParseOutcome::Report(r0),
    ensures
        r matches ParseOutcome::Report(rep) ==> 0 < rep.summary.total && 0 <= rep.summary.passed
            <= rep.summary.total,
{
    if let ParseOutcome::Report(rep) = r {
        lemma_count_passed_le(records_of(spec_lines(raw)));
    }
}

/// When every matched case line carries the pass marker, the summary says
/// so: total and passed both equal the case count, so the pass rate is one.
pub proof fn lemma_all_cases_pass(raw: Seq<char>, r: ParseOutcome)
    requires
        parse_post(raw, r),
        records_of(spec_lines(raw)).len() >= 1,
        forall|i: int|
            0 <= i < records_of(spec_lines(raw)).len() ==> (#[trigger] records_of(
                spec_lines(raw),
            )[i]).passed,
    ensures
        r matches ParseOutcome::Report(rep) && rep.summary.total == records_of(
            spec_lines(raw),
        ).len() && rep.summary.passed == rep.summary.total,
{
    lemma_count_passed_all(records_of(spec_lines(raw)));
}

/// Text without a comma splits into itself alone.
proof fn lemma_split_single(s: Seq<char>)
    requires
        forall|j: int| 0 <= j < s.len() ==> s[j] != ',',
    ensures
        spec_split_commas(s) == seq![s],
{
    assert forall|j: int| 0 <= j implies !match_at(s, j, seq![',']) by {
        lemma_match1(s, j, ',');
    }
    lemma_find_is_none(s, seq![','], 0);
}

/// A rendered integer holds no white space, no comma and no parenthesis, and
/// trimming leaves it alone.
proof fn lemma_int_str_piece(v: int)
    ensures
        spec_int_str(v).len() >= 1,
        forall|j: int|
            0 <= j < spec_int_str(v).len() ==> #[trigger] spec_int_str(v)[j] != ','
                && !is_ws(spec_int_str(v)[j]),
        spec_trim(spec_int_str(v)) == spec_int_str(v),
{
    lemma_int_str_chars(v);
    assert forall|j: int| 0 <= j < spec_int_str(v).len() implies #[trigger] spec_int_str(v)[j]
        != ',' && !is_ws(spec_int_str(v)[j]) by {
        assert(is_digit(spec_int_str(v)[j]) || spec_int_str(v)[j] == '-');
    }
    lemma_trim_id(spec_int_str(v));
}

/// Every character of a joined argument list is a digit, a minus, a comma or
/// a space; the edges are never white space.
proof fn lemma_join_chars(xs: Seq<i32>)
    requires
        xs.len() >= 1,
    ensures
        spec_args_join(xs).len() >= 1,
        !is_ws(spec_args_join(xs)[0]),
        !is_ws(spec_args_join(xs).last()),
    decreases xs.len(),
{
    reveal_strlit(", ");
    if xs.len() == 1 {
        lemma_int_str_piece(xs[0] as int);
    } else {
        let pre = xs.drop_last();
        lemma_join_chars(pre);
        lemma_int_str_piece(xs.last() as int);
        let w = spec_args_join(xs);
        let istr = spec_int_str(xs.last() as int);
        assert(w == spec_args_join(pre) + ", "@ + istr);
        assert(w[0] == spec_args_join(pre)[0]);
        assert(w.last() == istr.last()) by {
            assert(w.len() == spec_args_join(pre).len() + 2 + istr.len());
        }
    }
}

/// Every character of a joined argument list is a digit, a minus, a comma or
/// a space.
proof fn lemma_join_class(xs: Seq<i32>)
    ensures
        forall|j: int|
            0 <= j < spec_args_join(xs).len() ==> (is_digit(#[trigger] spec_args_join(xs)[j])
                || spec_args_join(xs)[j] == '-' || spec_args_join(xs)[j] == ','
                || spec_args_join(xs)[j] == ' '),
    decreases xs.len(),
{
    reveal_strlit(", ");
    let w = spec_args_join(xs);
    if xs.len() == 0 {
    } else if xs.len() == 1 {
        lemma_int_str_chars(xs[0] as int);
    } else {
        let pre = xs.drop_last();
        lemma_join_class(pre);
        lemma_int_str_chars(xs.last() as int);
        let a = spec_args_join(pre);
        let istr = spec_int_str(xs.last() as int);
        assert(w == a + ", "@ + istr);
        assert(", "@.len() == 2);
        assert forall|j: int|
            0 <= j < w.len() implies (is_digit(#[trigger] w[j]) || w[j] == '-' || w[j] == ','
            || w[j] == ' ') by {
            if j < a.len() {
                assert(w[j] == a[j]);
            } else if j < a.len() + 2 {
                assert(w[j] == ", "@[j - a.len()]);
            } else {
                assert(w[j] == istr[j - a.len() - 2]);
            }
        }
    }
}

/// A run of digits followed by a non-digit scans to exactly its end.
proof fn lemma_digits_end_block(s: Seq<char>, i: int, k: int)
    requires
        0 <= i <= k <= s.len(),
        forall|j: int| i <= j < k ==> is_digit(#[trigger] s[j]),
        k == s.len() || !is_digit(s[k]),
    ensures
        crate::parser::digits_end(s, i) == k,
    decreases k - i,
{
    if i < k {
        lemma_digits_end_block(s, i + 1, k);
    }
}

/// A run of digits and dots followed by something else scans to its end.
proof fn lemma_timec_end_block(s: Seq<char>, i: int, k: int)
    requires
        0 <= i <= k <= s.len(),
        forall|j: int| i <= j < k ==> crate::parser::is_timec(#[trigger] s[j]),
        k == s.len() || !crate::parser::is_timec(s[k]),
    ensures
        crate::parser::timec_end(s, i) == k,
    decreases k - i,
{
    if i < k {
        lemma_timec_end_block(s, i + 1, k);
    }
}

/// Re-splitting a rendered argument list on commas, trimming and re-parsing
/// each piece reproduces the original ordered integers exactly.
pub proof fn lemma_args_round_trip(xs: Seq<i32>)
    ensures
        spec_parse_args(spec_args_join(xs)) == xs.map_values(|x: i32| x as int),
    decreases xs.len(),
{
    reveal_strlit(", ");
    let f = |p: Seq<char>| spec_parse_i64(spec_trim(p));
    let w = spec_args_join(xs);
    if xs.len() == 0 {
        assert(w.len() == 0);
        assert(spec_trim_front(w) == w);
        assert(spec_trim_back(w) == w);
        assert(spec_parse_args(w) =~= xs.map_values(|x: i32| x as int));
    } else if xs.len() == 1 {
        lemma_int_str_piece(xs[0] as int);
        lemma_join_chars(xs);
        lemma_trim_id(w);
        lemma_split_single(w);
        lemma_parse_int_str(xs[0] as int);
        assert(spec_split_commas(w).map_values(f) =~= seq![f(w)]);
        assert(f(w) == xs[0] as int);
        assert(spec_parse_args(w) =~= xs.map_values(|x: i32| x as int));
    } else {
        let pre = xs.drop_last();
        let istr = spec_int_str(xs.last() as int);
        let tail = seq![' '] + istr;
        lemma_join_chars(pre);
        lemma_join_chars(xs);
        lemma_int_str_piece(xs.last() as int);
        lemma_args_round_trip(pre);
        assert(", "@ =~= seq![','] + seq![' ']);
        assert(w =~= spec_args_join(pre) + seq![','] + tail);
        lemma_split_concat(spec_args_join(pre), tail);
        assert(forall|j: int| 0 <= j < tail.len() ==> tail[j] != ',') by {
            assert(tail[0] == ' ');
            assert(forall|j: int| 1 <= j < tail.len() ==> tail[j] == istr[j - 1]);
        }
        lemma_split_single(tail);
        // the final piece trims to the rendered integer and parses back
        assert(tail.skip(1) =~= istr);
        assert(spec_trim_front(tail) == spec_trim_front(istr));
        assert(spec_trim_front(istr) == istr);
        assert(spec_trim(tail) == istr);
        lemma_parse_int_str(xs.last() as int);
        assert(f(tail) == xs.last() as int);
        // the prefix pieces are those of the shorter list
        lemma_trim_id(w);
        lemma_trim_id(spec_args_join(pre));
        assert(spec_parse_args(spec_args_join(pre)) == spec_split_commas(
            spec_args_join(pre),
        ).map_values(f));
        assert(spec_split_commas(w) == spec_split_commas(spec_args_join(pre)) + seq![tail]);
        assert(spec_split_commas(w).map_values(f) =~= spec_split_commas(
            spec_args_join(pre),
        ).map_values(f) + seq![f(tail)]);
        assert(xs.map_values(|x: i32| x as int) =~= pre.map_values(|x: i32| x as int) + seq![
            xs.last() as int,
        ]);
        assert(spec_parse_args(w) =~= xs.map_values(|x: i32| x as int));
    }
}

/// The exact case line a harness emits: the echoed argument list, the
/// observed and expected outputs, the marker chosen by their comparison, and
/// the case time printed with three decimals.
pub open spec fn spec_render_case_line(
    xs: Seq<i32>,
    out: int,
    exp: int,
    tq: nat,
    tr: nat,
) -> Seq<char> {
    "Input: ("@ + spec_args_join(xs) + ") => Output: "@ + spec_int_str(out) + " | Expected: "@
        + spec_int_str(exp) + (if out == exp {
        " | \u{2705} PASS | Time: "@
    } else {
        " | \u{274c} FAIL | Time: "@
    }) + spec_nat_str(tq) + seq!['.'] + seq![
        digit_char((tr / 100) as int),
        digit_char(((tr / 10) % 10) as int),
        digit_char((tr % 10) as int),
    ] + "ms"@
}

/// A rendered case line parses back to exactly its own data: the grammar
/// round-trips the echoed inputs, the outputs, the marker and the time.
#[verifier::rlimit(80)]
pub proof fn lemma_case_line_round_trip(xs: Seq<i32>, out: int, exp: int, tq: nat, tr: nat)
    requires
        -0x8000_0000_0000_0000 <= out <= 0x7fff_ffff_ffff_ffff,
        -0x8000_0000_0000_0000 <= exp <= 0x7fff_ffff_ffff_ffff,
        tr < 1000,
        tq * 1000 + tr <= 0xffff_ffff_ffff_ffff,
    ensures
        spec_case_line(spec_render_case_line(xs, out, exp, tq, tr)) == Some(
            CaseData {
                input: xs.map_values(|x: i32| x as int),
                output: out,
                expected: exp,
                passed: out == exp,
                time_us: (tq * 1000 + tr) as nat,
            },
        ),
{
    reveal_strlit("Input: (");
    reveal_strlit(") => Output: ");
    reveal_strlit(" | Expected: ");
    reveal_strlit(" | \u{2705} PASS | Time: ");
    reveal_strlit(" | \u{274c} FAIL | Time: ");
    reveal_strlit("ms");
    let line = spec_render_case_line(xs, out, exp, tq, tr);
    let a = spec_args_join(xs);
    let o = spec_int_str(out);
    let e = spec_int_str(exp);
    let m = if out == exp {
        " | \u{2705} PASS | Time: "@
    } else {
        " | \u{274c} FAIL | Time: "@
    };
    let tqs = spec_nat_str(tq);
    let f = seq![
        digit_char((tr / 100) as int),
        digit_char(((tr / 10) % 10) as int),
        digit_char((tr % 10) as int),
    ];
    lemma_join_class(xs);
    lemma_int_str_chars(out);
    lemma_int_str_chars(exp);
    lemma_nat_str(tq);
    let a1: int = 8 + a.len() as int;
    let p1: int = a1 + 13;
    let oe: int = p1 + o.len() as int;
    let p2: int = oe + 13;
    let ee: int = p2 + e.len() as int;
    let p3: int = ee + 18;
    let tdot: int = p3 + tqs.len() as int;
    let te: int = tdot + 4;
    assert(m.len() == 18);
    assert(line.len() == te + 2);
    // the line opens with the fixed prefix
    assert(line.subrange(0, 8) =~= "Input: ("@);
    assert(match_at(line, 0, "Input: ("@));
    // the argument list runs to the first output delimiter
    assert(line.subrange(a1 as int, p1 as int) =~= ") => Output: "@);
    assert(match_at(line, a1 as int, ") => Output: "@));
    assert forall|j: int| 8 <= j < a1 implies !match_at(line, j, ") => Output: "@) by {
        assert(line[j] == a[j - 8]);
        if match_at(line, j, ") => Output: "@) {
            assert(line.subrange(j, j + 13)[0] == line[j]);
            assert(line[j] == ')');
        }
    }
    lemma_find_first(line, ") => Output: "@, 8, a1 as int);
    assert(line.subrange(8, a1 as int) =~= a);
    // the observed output scans as one signed integer
    assert(line.subrange(p1 as int, oe as int) =~= o);
    if out < 0 {
        lemma_nat_str((-out) as nat);
        assert(line[p1 as int] == '-');
        assert forall|j: int| p1 + 1 <= j < oe implies is_digit(#[trigger] line[j]) by {
            assert(line[j] == o[j - p1]);
            assert(o[j - p1] == spec_nat_str((-out) as nat)[j - p1 - 1]);
        }
        assert(!is_digit(line[oe as int]));
        lemma_digits_end_block(line, p1 + 1, oe as int);
        assert(int_end(line, p1 as int) == oe);
    } else {
        lemma_nat_str(out as nat);
        assert(o == spec_nat_str(out as nat));
        assert forall|j: int| p1 <= j < oe implies is_digit(#[trigger] line[j]) by {
            assert(line[j] == o[j - p1]);
        }
        assert(is_digit(line[p1 as int]));
        assert(line[p1 as int] != '-');
        assert(!is_digit(line[oe as int]));
        lemma_digits_end_block(line, p1 as int, oe as int);
        assert(int_end(line, p1 as int) == oe);
    }
    lemma_parse_int_str(out);
    assert(spec_parse_i64(line.subrange(p1 as int, oe as int)) == out);
    // the expected delimiter and the expected integer
    assert(line.subrange(oe as int, p2 as int) =~= " | Expected: "@);
    assert(match_at(line, oe as int, " | Expected: "@));
    assert(line.subrange(p2 as int, ee as int) =~= e);
    if exp < 0 {
        lemma_nat_str((-exp) as nat);
        assert(line[p2 as int] == '-');
        assert forall|j: int| p2 + 1 <= j < ee implies is_digit(#[trigger] line[j]) by {
            assert(line[j] == e[j - p2]);
            assert(e[j - p2] == spec_nat_str((-exp) as nat)[j - p2 - 1]);
        }
        assert(!is_digit(line[ee as int]));
        lemma_digits_end_block(line, p2 + 1, ee as int);
        assert(int_end(line, p2 as int) == ee);
    } else {
        lemma_nat_str(exp as nat);
        assert(e == spec_nat_str(exp as nat));
        assert forall|j: int| p2 <= j < ee implies is_digit(#[trigger] line[j]) by {
            assert(line[j] == e[j - p2]);
        }
        assert(is_digit(line[p2 as int]));
        assert(line[p2 as int] != '-');
        assert(!is_digit(line[ee as int]));
        lemma_digits_end_block(line, p2 as int, ee as int);
        assert(int_end(line, p2 as int) == ee);
    }
    lemma_parse_int_str(exp);
    assert(spec_parse_i64(line.subrange(p2 as int, ee as int)) == exp);
    // exactly one marker stands after the expected value
    assert(line.subrange(ee as int, p3 as int) =~= m);
    assert(match_at(line, ee as int, m));
    if out == exp {
        assert(!match_at(line, ee as int, " | \u{274c} FAIL | Time: "@)) by {
            if match_at(line, ee as int, " | \u{274c} FAIL | Time: "@) {
                assert(line.subrange(ee as int, ee + 18)[3] == line[ee + 3]);
                assert(line[ee + 3] == '\u{274c}');
                assert(m[3] == '\u{2705}');
            }
        }
    } else {
        assert(!match_at(line, ee as int, " | \u{2705} PASS | Time: "@)) by {
            if match_at(line, ee as int, " | \u{2705} PASS | Time: "@) {
                assert(line.subrange(ee as int, ee + 18)[3] == line[ee + 3]);
                assert(line[ee + 3] == '\u{2705}');
                assert(m[3] == '\u{274c}');
            }
        }
    }
    // the time run covers digits and the dot, and stops at "ms"
    assert(forall|x: int| is_digit(#[trigger] digit_char(x)));
    assert forall|j: int| p3 <= j < te implies crate::parser::is_timec(#[trigger] line[j]) by {
        if j < tdot {
            assert(line[j] == tqs[j - p3]);
        } else if j == tdot {
            assert(line[j] == '.');
        } else {
            assert(line[j] == f[j - tdot - 1]);
        }
    }
    assert(line[te as int] == 'm');
    assert(!crate::parser::is_timec(line[te as int]));
    lemma_timec_end_block(line, p3 as int, te as int);
    assert(crate::parser::timec_end(line, p3 as int) == te);
    assert(line.subrange(te as int, te + 2) =~= "ms"@);
    assert(match_at(line, te as int, "ms"@));
    // the time text reads back as the same fixed-point microseconds
    let ts = line.subrange(p3 as int, te as int);
    assert(ts =~= tqs + seq!['.'] + f);
    assert(ts[tqs.len() as int] == '.');
    lemma_match1(ts, tqs.len() as int, '.');
    assert forall|j: int| 0 <= j < tqs.len() implies !match_at(ts, j, seq!['.']) by {
        lemma_match1(ts, j, '.');
        assert(ts[j] == tqs[j]);
    }
    lemma_find_first(ts, seq!['.'], 0, tqs.len() as int);
    assert(spec_find(ts, seq!['.'], 0) == Some(tqs.len() as int));
    let fp = ts.skip(tqs.len() as int + 1);
    assert(fp =~= f);
    assert forall|j: int| 0 <= j implies !match_at(f, j, seq!['.']) by {
        lemma_match1(f, j, '.');
        if 0 <= j < 3 {
            assert(is_digit(f[j]));
        }
    }
    lemma_find_is_none(f, seq!['.'], 0);
    assert(ts.take(tqs.len() as int) =~= tqs);
    assert(frac3(f) == tr) by {
        assert(tr / 100 <= 9);
        assert((tr / 10) % 10 <= 9);
        assert(tr % 10 <= 9);
        assert(digit_val(digit_char((tr / 100) as int)) == tr / 100);
        assert(digit_val(digit_char(((tr / 10) % 10) as int)) == (tr / 10) % 10);
        assert(digit_val(digit_char((tr % 10) as int)) == tr % 10);
        assert((tr / 100) * 100 + ((tr / 10) % 10) * 10 + tr % 10 == tr) by {
            assert(tr == (tr / 10) * 10 + tr % 10);
            assert(tr / 10 == ((tr / 10) / 10) * 10 + (tr / 10) % 10);
            assert((tr / 10) / 10 == tr / 100) by (nonlinear_arith)
                requires 0 <= tr < 1000;
        }
    }
    assert(spec_time_us(ts) == tq * 1000 + tr);
    assert(sat64(spec_time_us(ts)) == tq * 1000 + tr);
    // the echoed arguments reproduce the original list
    lemma_args_round_trip(xs);
    assert(spec_parse_args(line.subrange(8, a1 as int)) == xs.map_values(|x: i32| x as int));
    assert(spec_case_line(line) == Some(
        CaseData {
            input: xs.map_values(|x: i32| x as int),
            output: out,
            expected: exp,
            passed: out == exp,
            time_us: (tq * 1000 + tr) as nat,
        },
    ));
}


/// Case records accumulate one per line when every line is a case line.
pub proof fn lemma_records_of_all_cases(ls: Seq<Seq<char>>, cs: Seq<CaseData>)
    requires
        ls.len() == cs.len(),
        forall|i: int| 0 <= i < ls.len() ==> spec_case_line(#[trigger] ls[i]) == Some(cs[i]),
    ensures
        records_of(ls) == cs,
    decreases ls.len(),
{
    if ls.len() > 0 {
        let lp = ls.drop_last();
        let cp = cs.drop_last();
        assert(forall|i: int| 0 <= i < lp.len() ==> spec_case_line(#[trigger] lp[i]) == Some(
            cp[i],
        )) by {
            assert(forall|i: int| 0 <= i < lp.len() ==> lp[i] == ls[i] && cp[i] == cs[i]);
        }
        lemma_records_of_all_cases(lp, cp);
        assert(spec_case_line(ls.last()) == Some(cs.last())) by {
            assert(ls.last() == ls[ls.len() - 1]);
        }
        assert(records_of(ls) =~= cs);
    }
}

/// One newline-terminated line splits back off the front of the text.
proof fn lemma_lines_cons(l: Seq<char>, rest: Seq<char>)
    requires
        forall|j: int| 0 <= j < l.len() ==> l[j] != '\n',
        l.len() == 0 || l.last() != '\r',
    ensures
        spec_lines(l + seq!['\n'] + rest) == seq![l] + spec_lines(rest),
{
    let u = l + seq!['\n'] + rest;
    assert(u[l.len() as int] == '\n');
    lemma_match1(u, l.len() as int, '\n');
    assert forall|j: int| 0 <= j < l.len() implies !match_at(u, j, seq!['\n']) by {
        lemma_match1(u, j, '\n');
        assert(u[j] == l[j]);
    }
    lemma_find_first(u, seq!['\n'], 0, l.len() as int);
    assert(u.len() > 0);
    assert(u.take(l.len() as int) =~= l);
    assert(strip_cr(l) == l);
    assert(u.skip(l.len() as int + 1) =~= rest);
    assert(spec_lines(u) == seq![strip_cr(u.take(l.len() as int))] + spec_lines(rest));
}

/// A rendered case line never holds a newline, and never ends in a carriage
/// return.
proof fn lemma_render_line_chars(xs: Seq<i32>, out: int, exp: int, tq: nat, tr: nat)
    ensures
        spec_render_case_line(xs, out, exp, tq, tr).len() > 0,
        forall|j: int|
            0 <= j < spec_render_case_line(xs, out, exp, tq, tr).len()
                ==> #[trigger] spec_render_case_line(xs, out, exp, tq, tr)[j] != '\n',
        spec_render_case_line(xs, out, exp, tq, tr).last() != '\r',
{
    reveal_strlit("Input: (");
    reveal_strlit(") => Output: ");
    reveal_strlit(" | Expected: ");
    reveal_strlit(" | \u{2705} PASS | Time: ");
    reveal_strlit(" | \u{274c} FAIL | Time: ");
    reveal_strlit("ms");
    let line = spec_render_case_line(xs, out, exp, tq, tr);
    let a = spec_args_join(xs);
    let o = spec_int_str(out);
    let e = spec_int_str(exp);
    let m = if out == exp {
        " | \u{2705} PASS | Time: "@
    } else {
        " | \u{274c} FAIL | Time: "@
    };
    let tqs = spec_nat_str(tq);
    let f = seq![
        digit_char((tr / 100) as int),
        digit_char(((tr / 10) % 10) as int),
        digit_char((tr % 10) as int),
    ];
    lemma_join_class(xs);
    lemma_int_str_chars(out);
    lemma_int_str_chars(exp);
    lemma_nat_str(tq);
    let a1: int = 8 + a.len() as int;
    let p1: int = a1 + 13;
    let oe: int = p1 + o.len() as int;
    let p2: int = oe + 13;
    let ee: int = p2 + e.len() as int;
    let p3: int = ee + 18;
    let tdot: int = p3 + tqs.len() as int;
    let te: int = tdot + 4;
    assert(m.len() == 18);
    assert(line.len() == te + 2);
    assert(forall|x: int| is_digit(#[trigger] digit_char(x)));
    assert(forall|j: int| 0 <= j < 18 ==> #[trigger] m[j] != '\n');
    assert forall|j: int| 0 <= j < line.len() implies #[trigger] line[j] != '\n' by {
        if j < 8 {
            assert(line[j] == "Input: ("@[j]);
        } else if j < a1 {
            assert(line[j] == a[j - 8]);
        } else if j < p1 {
            assert(line[j] == ") => Output: "@[j - a1]);
        } else if j < oe {
            assert(line[j] == o[j - p1]);
        } else if j < p2 {
            assert(line[j] == " | Expected: "@[j - oe]);
        } else if j < ee {
            assert(line[j] == e[j - p2]);
        } else if j < p3 {
            assert(line[j] == m[j - ee]);
        } else if j < tdot {
            assert(line[j] == tqs[j - p3]);
        } else if j == tdot {
            assert(line[j] == '.');
        } else if j < te {
            assert(line[j] == f[j - tdot - 1]);
        } else {
            assert(line[j] == "ms"@[j - te]);
        }
    }
    assert(line.last() == "ms"@[1]);
}

/// One case a harness run echoes: the inputs, the observed and expected
/// outputs, and the case time split into whole milliseconds and three
/// fractional digits.
pub ghost struct HarnessCase {
    pub input: Seq<i32>,
    pub output: int,
    pub expected: int,
    pub time_ms_int: nat,
    pub time_ms_frac: nat,
}

/// The values one echoed case denotes.
pub open spec fn echo_data(h: HarnessCase) -> CaseData {
    CaseData {
        input: h.input.map_values(|x: i32| x as int),
        output: h.output,
        expected: h.expected,
        passed: h.output == h.expected,
        time_us: (h.time_ms_int * 1000 + h.time_ms_frac) as nat,
    }
}

/// The case is one the harness protocol can carry.
pub open spec fn echo_valid(h: HarnessCase) -> bool {
    &&& -0x8000_0000_0000_0000 <= h.output <= 0x7fff_ffff_ffff_ffff
    &&& -0x8000_0000_0000_0000 <= h.expected <= 0x7fff_ffff_ffff_ffff
    &&& h.time_ms_frac < 1000
    &&& h.time_ms_int * 1000 + h.time_ms_frac <= 0xffff_ffff_ffff_ffff
}

pub open spec fn render_line_of(h: HarnessCase) -> Seq<char> {
    spec_render_case_line(h.input, h.output, h.expected, h.time_ms_int, h.time_ms_frac)
}

/// The text a harness run prints for its cases: one newline-terminated case
/// line per case, in order.
pub open spec fn spec_render_output(cs: Seq<HarnessCase>) -> Seq<char>
    decreases cs.len(),
{
    if cs.len() == 0 {
        Seq::empty()
    } else {
        render_line_of(cs[0]) + seq!['\n'] + spec_render_output(cs.skip(1))
    }
}

/// The rendered output splits back into exactly its case lines, and their
/// records are exactly the echoed values.
pub proof fn lemma_render_output_parses(cs: Seq<HarnessCase>)
    requires
        forall|i: int| 0 <= i < cs.len() ==> echo_valid(#[trigger] cs[i]),
    ensures
        spec_lines(spec_render_output(cs)) == cs.map_values(|h: HarnessCase| render_line_of(h)),
        records_of(spec_lines(spec_render_output(cs))) == cs.map_values(
            |h: HarnessCase| echo_data(h),
        ),
    decreases cs.len(),
{
    let w = spec_render_output(cs);
    if cs.len() == 0 {
        assert(spec_lines(w) =~= cs.map_values(|h: HarnessCase| render_line_of(h)));
        assert(records_of(spec_lines(w)) =~= cs.map_values(|h: HarnessCase| echo_data(h)));
    } else {
        let rest = cs.skip(1);
        assert(forall|i: int| 0 <= i < rest.len() ==> echo_valid(#[trigger] rest[i])) by {
            assert(forall|i: int| 0 <= i < rest.len() ==> rest[i] == cs[i + 1]);
        }
        lemma_render_output_parses(rest);
        let h = cs[0];
        lemma_render_line_chars(h.input, h.output, h.expected, h.time_ms_int, h.time_ms_frac);
        lemma_lines_cons(render_line_of(h), spec_render_output(rest));
        assert(spec_lines(w) =~= cs.map_values(|h0: HarnessCase| render_line_of(h0))) by {
            assert(rest.map_values(|h0: HarnessCase| render_line_of(h0)) =~= cs.map_values(
                |h0: HarnessCase| render_line_of(h0),
            ).skip(1));
        }
        let ls = spec_lines(w);
        let ds = cs.map_values(|h0: HarnessCase| echo_data(h0));
        assert forall|i: int| 0 <= i < ls.len() implies spec_case_line(#[trigger] ls[i]) == Some(
            ds[i],
        ) by {
            let hi = cs[i];
            lemma_case_line_round_trip(
                hi.input,
                hi.output,
                hi.expected,
                hi.time_ms_int,
                hi.time_ms_frac,
            );
        }
        lemma_records_of_all_cases(ls, ds);
    }
}

/// A request with N test cases whose run echoes every case as passing parses
/// to a report saying total == N, passed == N — a pass rate of one.
pub proof fn lemma_rendered_request_all_pass(cs: Seq<HarnessCase>, r: ParseOutcome)
    requires
        cs.len() >= 1,
        forall|i: int| 0 <= i < cs.len() ==> echo_valid(#[trigger] cs[i]),
        forall|i: int| 0 <= i < cs.len() ==> (#[trigger] cs[i]).output == cs[i].expected,
        parse_post(spec_render_output(cs), r),
    ensures
        r matches ParseOutcome::Report(rep) && rep.summary.total == cs.len()
            && rep.summary.passed == cs.len(),
{
    lemma_render_output_parses(cs);
    let recs = records_of(spec_lines(spec_render_output(cs)));
    assert forall|i: int| 0 <= i < recs.len() implies (#[trigger] recs[i]).passed by {
        assert(recs[i] == echo_data(cs[i]));
    }
    lemma_all_cases_pass(spec_render_output(cs), r);
}

} // verus!

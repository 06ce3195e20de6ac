//! Decimal text: formatting integers for the generated harness programs and
//! re-parsing them from captured output, with round-trip lemmas.
use vstd::prelude::*;

verus! {

use vstd::string::StringExecFns;

/// The ten decimal digit characters, by value; any other value gives '0'.
pub open spec fn digit_char(d: int) -> char {
    if d == 1 { '1' }
    else if d == 2 { '2' }
    else if d == 3 { '3' }
    else if d == 4 { '4' }
    else if d == 5 { '5' }
    else if d == 6 { '6' }
    else if d == 7 { '7' }
    else if d == 8 { '8' }
    else if d == 9 { '9' }
    else { '0' }
}

/// The value of a decimal digit character; any other character gives 0.
pub open spec fn digit_val(c: char) -> int {
    if c == '1' { 1 }
    else if c == '2' { 2 }
    else if c == '3' { 3 }
    else if c == '4' { 4 }
    else if c == '5' { 5 }
    else if c == '6' { 6 }
    else if c == '7' { 7 }
    else if c == '8' { 8 }
    else if c == '9' { 9 }
    else { 0 }
}

pub open spec fn is_digit(c: char) -> bool {
    c == '0' || c == '1' || c == '2' || c == '3' || c == '4' || c == '5' || c == '6' || c == '7'
        || c == '8' || c == '9'
}

/// Decimal text of a natural number, without sign or leading zeros
/// (a single "0" for zero).
pub open spec fn spec_nat_str(n: nat) -> Seq<char>
    decreases n,
{
    if n < 10 {
        seq![digit_char(n as int)]
    } else {
        spec_nat_str(n / 10) + seq![digit_char((n % 10) as int)]
    }
}

/// Decimal text of an integer: an optional leading minus, then digits.
pub open spec fn spec_int_str(v: int) -> Seq<char> {
    if v < 0 {
        seq!['-'] + spec_nat_str((-v) as nat)
    } else {
        spec_nat_str(v as nat)
    }
}

pub open spec fn all_digits(s: Seq<char>) -> bool {
    forall|i: int| 0 <= i < s.len() ==> is_digit(#[trigger] s[i])
}

/// The value of a string of decimal digit characters.
pub open spec fn spec_digits_val(s: Seq<char>) -> nat
    decreases s.len(),
{
    if s.len() == 0 {
        0
    } else {
        (spec_digits_val(s.drop_last()) * 10 + digit_val(s.last())) as nat
    }
}

/// What `"…".parse::<i64>()` yields, with every failure (empty text, a stray
/// character, a value outside the `i64` range) collapsed to 0, as the
/// captured-output grammar demands.
pub open spec fn spec_parse_i64(s: Seq<char>) -> int {
    if s.len() >= 2 && s[0] == '-' && all_digits(s.skip(1)) && spec_digits_val(s.skip(1))
        <= 0x8000_0000_0000_0000 {
        -spec_digits_val(s.skip(1))
    } else if s.len() >= 2 && s[0] == '+' && all_digits(s.skip(1)) && spec_digits_val(s.skip(1))
        <= 0x7fff_ffff_ffff_ffff {
        spec_digits_val(s.skip(1)) as int
    } else if s.len() >= 1 && all_digits(s) && spec_digits_val(s) <= 0x7fff_ffff_ffff_ffff {
        spec_digits_val(s) as int
    } else {
        0
    }
}

/// A one-character string for each decimal digit value (values above 9 give "0").
fn digit_str(d: u64) -> (r: &'static str)
    ensures
        r@ =~= seq![digit_char(d as int)],
{
    proof {
        reveal_strlit("0");
        reveal_strlit("1");
        reveal_strlit("2");
        reveal_strlit("3");
        reveal_strlit("4");
        reveal_strlit("5");
        reveal_strlit("6");
        reveal_strlit("7");
        reveal_strlit("8");
        reveal_strlit("9");
    }
    if d == 1 { "1" }
    else if d == 2 { "2" }
    else if d == 3 { "3" }
    else if d == 4 { "4" }
    else if d == 5 { "5" }
    else if d == 6 { "6" }
    else if d == 7 { "7" }
    else if d == 8 { "8" }
    else if d == 9 { "9" }
    else { "0" }
}

fn nat_to_string(n: u64) -> (r: String)
    ensures
        r@ == spec_nat_str(n as nat),
    decreases n,
{
    if n < 10 {
        let r = String::from_str(digit_str(n));
        proof {
            assert(r@ =~= spec_nat_str(n as nat));
        }
        r
    } else {
        let mut r = nat_to_string(n / 10);
        r.append(digit_str(n % 10));
        proof {
            assert(r@ =~= spec_nat_str(n as nat));
        }
        r
    }
}

/// Decimal text of a signed integer, as the harness templates embed it.
pub fn int_to_string(v: i64) -> (r: String)
    ensures
        r@ == spec_int_str(v as int),
{
    if v >= 0 {
        nat_to_string(v as u64)
    } else {
        let m: u64 = ((-(v as i128)) as u64);
        let mut r = String::from_str("-");
        proof {
            reveal_strlit("-");
        }
        r.append(nat_to_string(m).as_str());
        proof {
            assert(r@ =~= spec_int_str(v as int));
        }
        r
    }
}

/// The value of a digit character, or `None` for any other character.
pub fn digit_of(c: char) -> (r: Option<u8>)
    ensures
        r is Some <==> is_digit(c),
        r is Some ==> r->0 as int == digit_val(c),
{
    if c == '0' { Some(0) }
    else if c == '1' { Some(1) }
    else if c == '2' { Some(2) }
    else if c == '3' { Some(3) }
    else if c == '4' { Some(4) }
    else if c == '5' { Some(5) }
    else if c == '6' { Some(6) }
    else if c == '7' { Some(7) }
    else if c == '8' { Some(8) }
    else if c == '9' { Some(9) }
    else { None }
}

/// Reads `s[lo..hi]` the way `str::parse::<i64>` would, with every failure
/// giving 0.
#[verifier::loop_isolation(false)]
pub fn parse_i64_range(s: &Vec<char>, lo: usize, hi: usize) -> (r: i64)
    requires
        lo <= hi <= s@.len(),
    ensures
        r as int == spec_parse_i64(s@.subrange(lo as int, hi as int)),
{
    let ghost w = s@.subrange(lo as int, hi as int);
    if hi == lo {
        return 0;
    }
    let first = s[lo];
    let neg = first == '-';
    let plus = first == '+';
    let start: usize = if neg || plus {
        lo + 1
    } else {
        lo
    };
    if start == hi {
        // a bare sign alone: nothing numeric
        assert(w.len() < 2);
        assert(spec_parse_i64(w) == 0) by {
            if w.len() >= 1 && all_digits(w) {
                assert(is_digit(w[0]));
            }
        }
        return 0;
    }
    let ghost dseq = s@.subrange(start as int, hi as int);
    proof {
        if neg || plus {
            assert(dseq =~= w.skip(1));
        } else {
            assert(dseq =~= w);
        }
    }
    let mut acc: u128 = 0;
    let mut huge = false;
    let mut i: usize = start;
    while i < hi
        invariant
            start <= i <= hi <= s@.len(),
            dseq == s@.subrange(start as int, hi as int),
            all_digits(s@.subrange(start as int, i as int)),
            !huge ==> acc == spec_digits_val(s@.subrange(start as int, i as int))
                && acc <= 0xffff_ffff_ffff_ffff,
            huge ==> spec_digits_val(s@.subrange(start as int, i as int)) > 0xffff_ffff_ffff_ffff,
        decreases hi - i,
    {
        let c = s[i];
        let ghost pre = s@.subrange(start as int, i as int);
        let ghost cur = s@.subrange(start as int, i + 1 as int);
        proof {
            assert(cur.drop_last() =~= pre);
            assert(cur.last() == s@[i as int]);
        }
        match digit_of(c) {
            None => {
                // the text is not a number; every reading collapses to 0
                assert(!all_digits(dseq)) by {
                    assert(dseq[i - start] == c);
                }
                assert(spec_parse_i64(w) == 0) by {
                    if !(neg || plus) {
                        assert(!all_digits(w));
                        if w.len() >= 2 && w[0] == '-' {
                        }
                    } else {
                        assert(w.len() == hi - lo);
                        assert(w[0] == s@[lo as int]);
                        assert(w[0] == '-' || w[0] == '+');
                        assert(!is_digit(w[0]));
                        assert(!all_digits(w));
                        assert(!all_digits(w.skip(1)));
                    }
                }
                return 0;
            },
            Some(d) => {
                proof {
                    assert(spec_digits_val(cur) == spec_digits_val(pre) * 10 + digit_val(c));
                }
                if huge {
                    proof {
                        let v = spec_digits_val(pre);
                        assert(v * 10 >= v) by {
                            assert(v * 10 - v == 9 * v);
                        }
                    }
                } else {
                    acc = acc * 10 + (d as u128);
                    if acc > 0xffff_ffff_ffff_ffff {
                        huge = true;
                    }
                }
            },
        }
        i = i + 1;
    }
    proof {
        assert(s@.subrange(start as int, hi as int) =~= dseq);
        assert(all_digits(dseq));
        if neg || plus {
            assert(w[0] == first);
            assert(w.len() >= 2);
        } else {
            assert(is_digit(w[0]));
        }
    }
    if neg {
        if huge || acc > 0x8000_0000_0000_0000 {
            assert(spec_parse_i64(w) == 0) by {
                assert(spec_digits_val(w.skip(1)) > 0x8000_0000_0000_0000);
                assert(!all_digits(w));
            }
            0
        } else if acc == 0x8000_0000_0000_0000 {
            i64::MIN
        } else {
            -(acc as i64)
        }
    } else if plus {
        if huge || acc > 0x7fff_ffff_ffff_ffff {
            assert(spec_parse_i64(w) == 0) by {
                assert(spec_digits_val(w.skip(1)) > 0x7fff_ffff_ffff_ffff);
                assert(!is_digit(w[0]));
                assert(!all_digits(w));
            }
            0
        } else {
            acc as i64
        }
    } else {
        if huge || acc > 0x7fff_ffff_ffff_ffff {
            assert(spec_parse_i64(w) == 0) by {
                assert(spec_digits_val(w) > 0x7fff_ffff_ffff_ffff);
                if w.len() >= 2 && (w[0] == '-' || w[0] == '+') {
                }
            }
            0
        } else {
            assert(spec_parse_i64(w) == acc) by {
                assert(w[0] != '-' && w[0] != '+');
            }
            acc as i64
        }
    }
}

/// Every character of an unsigned decimal rendering is a digit, there is at
/// least one, and re-reading the digits gives the number back.
pub proof fn lemma_nat_str(n: nat)
    ensures
        spec_nat_str(n).len() >= 1,
        all_digits(spec_nat_str(n)),
        spec_digits_val(spec_nat_str(n)) == n,
    decreases n,
{
    if n < 10 {
        let w = seq![digit_char(n as int)];
        assert(spec_nat_str(n) =~= w);
        assert(w.drop_last() =~= Seq::<char>::empty());
        assert(spec_digits_val(w.drop_last()) == 0);
        assert(w.last() == digit_char(n as int));
        assert(digit_val(digit_char(n as int)) == n);
        assert(spec_digits_val(spec_nat_str(n)) == n);
    } else {
        lemma_nat_str(n / 10);
        let a = spec_nat_str(n / 10);
        let w = a + seq![digit_char((n % 10) as int)];
        assert(w.drop_last() =~= a);
        assert(w.last() == digit_char((n % 10) as int));
        assert(spec_digits_val(w) == spec_digits_val(a) * 10 + digit_val(w.last()));
        assert(digit_val(digit_char((n % 10) as int)) == n % 10);
        assert(spec_digits_val(w) == (n / 10) * 10 + n % 10);
        assert(forall|i: int| 0 <= i < w.len() ==> is_digit(#[trigger] w[i])) by {
            assert(forall|i: int| 0 <= i < a.len() ==> is_digit(#[trigger] a[i]));
        }
    }
}

/// A signed decimal rendering holds only digits and, at the front, a minus.
pub proof fn lemma_int_str_chars(v: int)
    ensures
        spec_int_str(v).len() >= 1,
        forall|i: int|
            0 <= i < spec_int_str(v).len() ==> (is_digit(#[trigger] spec_int_str(v)[i])
                || spec_int_str(v)[i] == '-'),
{
    if v < 0 {
        lemma_nat_str((-v) as nat);
        let a = spec_nat_str((-v) as nat);
        let w = seq!['-'] + a;
        assert(forall|i: int| 0 <= i < w.len() ==> (is_digit(#[trigger] w[i]) || w[i] == '-')) by {
            assert(forall|i: int| 0 <= i < a.len() ==> is_digit(#[trigger] a[i]));
            assert(w[0] == '-');
            assert(forall|i: int| 1 <= i < w.len() ==> #[trigger] w[i] == a[i - 1]);
        }
    } else {
        lemma_nat_str(v as nat);
    }
}

/// Parsing the decimal rendering of any `i64` gives the value back.
pub proof fn lemma_parse_int_str(v: int)
    requires
        -0x8000_0000_0000_0000 <= v <= 0x7fff_ffff_ffff_ffff,
    ensures
        spec_parse_i64(spec_int_str(v)) == v,
{
    if v < 0 {
        lemma_nat_str((-v) as nat);
        let a = spec_nat_str((-v) as nat);
        let w = seq!['-'] + a;
        assert(w.skip(1) =~= a);
        assert(w[0] == '-');
        assert(w.len() >= 2);
        assert(spec_parse_i64(w) == -spec_digits_val(a));
    } else {
        lemma_nat_str(v as nat);
        let a = spec_nat_str(v as nat);
        assert(a[0] != '-' && a[0] != '+') by {
            assert(is_digit(a[0]));
        }
        if a.len() >= 2 {
            assert(spec_parse_i64(a) == v);
        } else {
            assert(spec_parse_i64(a) == v);
        }
    }
}

} // verus!

//! Character-level text utilities: prefix matching, first-occurrence search,
//! line splitting, trimming — the primitives the output grammar is built on.
use vstd::prelude::*;

verus! {

use vstd::string::StrSliceExecFns;

/// Pattern `p` stands at position `i` of `s`.
pub open spec fn match_at(s: Seq<char>, i: int, p: Seq<char>) -> bool {
    0 <= i && i + p.len() <= s.len() && s.subrange(i, i + p.len()) == p
}

/// The first position at or after `i` where `p` stands in `s`.
pub open spec fn spec_find(s: Seq<char>, p: Seq<char>, i: int) -> Option<int>
    decreases s.len() + 1 - i,
{
    if i < 0 || i > s.len() {
        None
    } else if match_at(s, i, p) {
        Some(i)
    } else if i + p.len() > s.len() {
        None
    } else {
        spec_find(s, p, i + 1)
    }
}

pub proof fn lemma_find_bounds(s: Seq<char>, p: Seq<char>, i: int)
    ensures
        spec_find(s, p, i) matches Some(k) ==> i <= k && match_at(s, k, p),
    decreases s.len() + 1 - i,
{
    if 0 <= i <= s.len() && !match_at(s, i, p) && i + p.len() <= s.len() {
        lemma_find_bounds(s, p, i + 1);
    }
}

/// Searching a suffix finds the same occurrence, shifted.
pub proof fn lemma_find_shift(s: Seq<char>, p: Seq<char>, i: int, d: int)
    requires
        0 <= d <= i,
        d <= s.len(),
    ensures
        spec_find(s, p, i) matches Some(k) ==> spec_find(s.skip(d), p, i - d) == Some(k - d),
        spec_find(s, p, i) is None ==> spec_find(s.skip(d), p, i - d) is None,
    decreases s.len() + 1 - i,
{
    let t = s.skip(d);
    if i > s.len() {
        assert(spec_find(s, p, i) is None);
        assert(i - d > t.len());
        assert(spec_find(t, p, i - d) is None);
    } else {
        assert(match_at(s, i, p) == match_at(t, i - d, p)) by {
            if i + p.len() <= s.len() {
                assert(t.subrange(i - d, i - d + p.len()) =~= s.subrange(i, i + p.len()));
            }
        }
        if match_at(s, i, p) {
            assert(spec_find(s, p, i) == Some(i));
            assert(spec_find(t, p, i - d) == Some(i - d));
        } else if i + p.len() > s.len() {
            assert(spec_find(s, p, i) is None);
            assert(spec_find(t, p, i - d) is None);
        } else {
            lemma_find_shift(s, p, i + 1, d);
            assert(spec_find(s, p, i) == spec_find(s, p, i + 1));
            assert(spec_find(t, p, i - d) == spec_find(t, p, i + 1 - d));
        }
    }
}

/// An occurrence at `k` with none before it is what the search returns.
pub proof fn lemma_find_first(s: Seq<char>, p: Seq<char>, i: int, k: int)
    requires
        0 <= i <= k,
        match_at(s, k, p),
        forall|j: int| i <= j < k ==> !match_at(s, j, p),
    ensures
        spec_find(s, p, i) == Some(k),
    decreases k - i,
{
    if i == k {
        assert(spec_find(s, p, i) == Some(i));
    } else {
        lemma_find_first(s, p, i + 1, k);
        assert(!match_at(s, i, p));
        assert(i + p.len() <= s.len()) by {
            assert(k + p.len() <= s.len());
        }
    }
}

/// A failed search means there is no occurrence at all.
pub proof fn lemma_find_none(s: Seq<char>, p: Seq<char>, i: int)
    requires
        0 <= i,
        spec_find(s, p, i) is None,
    ensures
        forall|j: int| i <= j ==> !match_at(s, j, p),
    decreases s.len() + 1 - i,
{
    if i <= s.len() {
        assert(!match_at(s, i, p));
        if i + p.len() <= s.len() {
            lemma_find_none(s, p, i + 1);
        } else {
            assert forall|j: int| i <= j implies !match_at(s, j, p) by {
                assert(j + p.len() > s.len());
            }
        }
    } else {
        assert forall|j: int| i <= j implies !match_at(s, j, p) by {
            assert(j + p.len() > s.len());
        }
    }
}

/// What the search returns is the first occurrence: nothing matches before it.
pub proof fn lemma_find_min(s: Seq<char>, p: Seq<char>, i: int)
    requires
        0 <= i,
    ensures
        spec_find(s, p, i) matches Some(k) ==> forall|j: int| i <= j < k ==> !match_at(s, j, p),
    decreases s.len() + 1 - i,
{
    if i <= s.len() && !match_at(s, i, p) && i + p.len() <= s.len() {
        lemma_find_min(s, p, i + 1);
    }
}

/// No occurrence anywhere means the search fails.
pub proof fn lemma_find_is_none(s: Seq<char>, p: Seq<char>, i: int)
    requires
        0 <= i,
        forall|j: int| i <= j ==> !match_at(s, j, p),
    ensures
        spec_find(s, p, i) is None,
    decreases s.len() + 1 - i,
{
    if i <= s.len() && i + p.len() <= s.len() {
        lemma_find_is_none(s, p, i + 1);
    }
}

/// A one-character pattern stands at `j` exactly when that character is there.
pub proof fn lemma_match1(s: Seq<char>, j: int, c: char)
    ensures
        match_at(s, j, seq![c]) <==> (0 <= j < s.len() && s[j] == c),
{
    if 0 <= j < s.len() {
        assert(s.subrange(j, j + 1) =~= seq![s[j]]);
        assert(seq![s[j]][0] == s[j]);
        assert(seq![c][0] == c);
        if s.subrange(j, j + 1) == seq![c] {
            assert(s[j] == c);
        }
    }
}

/// Does `pat` stand at position `i` of `s`?
#[verifier::loop_isolation(false)]
pub fn has_at(s: &Vec<char>, i: usize, pat: &str) -> (r: bool)
    ensures
        r == match_at(s@, i as int, pat@),
{
    let n = pat.unicode_len();
    if i > s.len() || n > s.len() - i {
        return false;
    }
    let mut j: usize = 0;
    while j < n
        invariant
            0 <= j <= n,
            i + n <= s@.len(),
            n == pat@.len(),
            forall|t: int| 0 <= t < j ==> s@[i + t] == pat@[t],
        decreases n - j,
    {
        if s[i + j] != pat.get_char(j) {
            assert(!match_at(s@, i as int, pat@)) by {
                assert(s@.subrange(i as int, i + pat@.len()) =~= pat@ ==> s@[i + j]
                    == pat@[j as int]);
            }
            return false;
        }
        j = j + 1;
    }
    proof {
        assert(s@.subrange(i as int, i + pat@.len()) =~= pat@);
    }
    true
}

/// The first position at or after `from` where `pat` stands in `s`.
#[verifier::loop_isolation(false)]
pub fn find_from(s: &Vec<char>, from: usize, pat: &str) -> (r: Option<usize>)
    requires
        from <= s@.len(),
    ensures
        match r {
            Some(k) => from <= k && spec_find(s@, pat@, from as int) == Some(k as int),
            None => spec_find(s@, pat@, from as int) is None,
        },
{
    let n = pat.unicode_len();
    let mut k: usize = from;
    loop
        invariant
            from <= k <= s@.len(),
            n == pat@.len(),
            spec_find(s@, pat@, from as int) == spec_find(s@, pat@, k as int),
        decreases s@.len() - k,
    {
        if has_at(s, k, pat) {
            proof {
                lemma_find_bounds(s@, pat@, from as int);
            }
            return Some(k);
        }
        if n > s.len() - k {
            return None;
        }
        if k == s.len() {
            // only an empty pattern could still match here, and it would have
            proof {
                assert(s@.subrange(k as int, k as int) =~= pat@);
                assert(false);
            }
            return None;
        }
        k = k + 1;
    }
}

/// Does `pat` stand at position `i` of the borrowed string `s`?
#[verifier::loop_isolation(false)]
pub fn str_has_at(s: &str, i: usize, pat: &str) -> (r: bool)
    ensures
        r == match_at(s@, i as int, pat@),
{
    let m = s.unicode_len();
    let n = pat.unicode_len();
    if i > m || n > m - i {
        return false;
    }
    let mut j: usize = 0;
    while j < n
        invariant
            0 <= j <= n,
            i + n <= s@.len(),
            m == s@.len(),
            n == pat@.len(),
            forall|t: int| 0 <= t < j ==> s@[i + t] == pat@[t],
        decreases n - j,
    {
        if s.get_char(i + j) != pat.get_char(j) {
            assert(!match_at(s@, i as int, pat@)) by {
                assert(s@.subrange(i as int, i + pat@.len()) =~= pat@ ==> s@[i + j]
                    == pat@[j as int]);
            }
            return false;
        }
        j = j + 1;
    }
    proof {
        assert(s@.subrange(i as int, i + pat@.len()) =~= pat@);
    }
    true
}

/// The first position at or after `from` where `pat` stands in the borrowed
/// string `s`.
#[verifier::loop_isolation(false)]
pub fn str_find_from(s: &str, from: usize, pat: &str) -> (r: Option<usize>)
    requires
        from <= s@.len(),
    ensures
        match r {
            Some(k) => from <= k && spec_find(s@, pat@, from as int) == Some(k as int),
            None => spec_find(s@, pat@, from as int) is None,
        },
{
    let m = s.unicode_len();
    let n = pat.unicode_len();
    let mut k: usize = from;
    loop
        invariant
            from <= k <= s@.len(),
            m == s@.len(),
            n == pat@.len(),
            spec_find(s@, pat@, from as int) == spec_find(s@, pat@, k as int),
        decreases s@.len() - k,
    {
        if str_has_at(s, k, pat) {
            proof {
                lemma_find_bounds(s@, pat@, from as int);
            }
            return Some(k);
        }
        if n > m - k {
            return None;
        }
        if k == m {
            // only an empty pattern could still match here, and it would have
            proof {
                assert(s@.subrange(k as int, k as int) =~= pat@);
                assert(false);
            }
            return None;
        }
        k = k + 1;
    }
}

/// Copy of `s[lo..hi]`.
#[verifier::loop_isolation(false)]
pub fn copy_range(s: &Vec<char>, lo: usize, hi: usize) -> (r: Vec<char>)
    requires
        lo <= hi <= s@.len(),
    ensures
        r@ == s@.subrange(lo as int, hi as int),
{
    let mut r: Vec<char> = Vec::new();
    let mut i: usize = lo;
    while i < hi
        invariant
            lo <= i <= hi,
            r@ =~= s@.subrange(lo as int, i as int),
        decreases hi - i,
    {
        r.push(s[i]);
        proof {
            assert(r@ =~= s@.subrange(lo as int, i + 1));
        }
        i = i + 1;
    }
    proof {
        assert(r@ =~= s@.subrange(lo as int, hi as int));
    }
    r
}

/// The characters of a borrowed string, in order.
#[verifier::loop_isolation(false)]
pub fn str_chars(s: &str) -> (r: Vec<char>)
    ensures
        r@ == s@,
{
    let n = s.unicode_len();
    let mut r: Vec<char> = Vec::new();
    let mut i: usize = 0;
    while i < n
        invariant
            0 <= i <= n,
            n == s@.len(),
            r@ =~= s@.subrange(0, i as int),
        decreases n - i,
    {
        r.push(s.get_char(i));
        proof {
            assert(r@ =~= s@.subrange(0, i + 1));
        }
        i = i + 1;
    }
    proof {
        assert(r@ =~= s@);
    }
    r
}

/// Character-for-character equality of two borrowed strings.
#[verifier::loop_isolation(false)]
pub fn str_eq(a: &str, b: &str) -> (r: bool)
    ensures
        r == (a@ == b@),
{
    let n = a.unicode_len();
    if n != b.unicode_len() {
        return false;
    }
    let mut i: usize = 0;
    while i < n
        invariant
            0 <= i <= n,
            n == a@.len() == b@.len(),
            forall|t: int| 0 <= t < i ==> a@[t] == b@[t],
        decreases n - i,
    {
        if a.get_char(i) != b.get_char(i) {
            return false;
        }
        i = i + 1;
    }
    proof {
        assert(a@ =~= b@);
    }
    true
}

pub open spec fn is_ws(c: char) -> bool {
    c == ' ' || c == '\t' || c == '\r' || c == '\n'
}

pub open spec fn spec_trim_front(s: Seq<char>) -> Seq<char>
    decreases s.len(),
{
    if s.len() > 0 && is_ws(s[0]) {
        spec_trim_front(s.skip(1))
    } else {
        s
    }
}

pub open spec fn spec_trim_back(s: Seq<char>) -> Seq<char>
    decreases s.len(),
{
    if s.len() > 0 && is_ws(s.last()) {
        spec_trim_back(s.drop_last())
    } else {
        s
    }
}

/// What `str::trim` leaves of `s`, for the white space the grammar meets.
pub open spec fn spec_trim(s: Seq<char>) -> Seq<char> {
    spec_trim_back(spec_trim_front(s))
}

fn is_ws_exec(c: char) -> (r: bool)
    ensures
        r == is_ws(c),
{
    c == ' ' || c == '\t' || c == '\r' || c == '\n'
}

/// Narrows `[lo, hi)` to the white-space-trimmed core of that range.
#[verifier::loop_isolation(false)]
pub fn trim_range(s: &Vec<char>, lo: usize, hi: usize) -> (r: (usize, usize))
    requires
        lo <= hi <= s@.len(),
    ensures
        lo <= r.0 <= r.1 <= hi,
        s@.subrange(r.0 as int, r.1 as int) == spec_trim(s@.subrange(lo as int, hi as int)),
{
    let mut a: usize = lo;
    let mut b: usize = hi;
    while a < b && is_ws_exec(s[a])
        invariant
            lo <= a <= b <= hi <= s@.len(),
            b == hi,
            spec_trim_front(s@.subrange(lo as int, hi as int)) == spec_trim_front(
                s@.subrange(a as int, hi as int),
            ),
        decreases b - a,
    {
        proof {
            let cur = s@.subrange(a as int, hi as int);
            assert(cur[0] == s@[a as int]);
            assert(cur.skip(1) =~= s@.subrange(a + 1, hi as int));
        }
        a = a + 1;
    }
    proof {
        let cur = s@.subrange(a as int, hi as int);
        if cur.len() > 0 {
            assert(cur[0] == s@[a as int]);
        }
        assert(spec_trim_front(cur) == cur);
    }
    while a < b && is_ws_exec(s[b - 1])
        invariant
            lo <= a <= b <= hi <= s@.len(),
            spec_trim_front(s@.subrange(lo as int, hi as int)) == s@.subrange(a as int, hi as int),
            spec_trim_back(s@.subrange(a as int, hi as int)) == spec_trim_back(
                s@.subrange(a as int, b as int),
            ),
        decreases b - a,
    {
        proof {
            let cur = s@.subrange(a as int, b as int);
            assert(cur.last() == s@[b - 1]);
            assert(cur.drop_last() =~= s@.subrange(a as int, b - 1));
        }
        b = b - 1;
    }
    proof {
        let cur = s@.subrange(a as int, b as int);
        if cur.len() > 0 {
            assert(cur.last() == s@[b - 1]);
        }
        assert(spec_trim_back(cur) == cur);
    }
    (a, b)
}

/// The pieces of `s` between commas, empties kept, as `str::split(',')` yields
/// them.
pub open spec fn spec_split_commas(s: Seq<char>) -> Seq<Seq<char>>
    decreases s.len(),
    via spec_split_commas_dec
{
    match spec_find(s, seq![','], 0) {
        None => seq![s],
        Some(k) => seq![s.take(k)] + spec_split_commas(s.skip(k + 1)),
    }
}

#[via_fn]
proof fn spec_split_commas_dec(s: Seq<char>) {
    lemma_find_bounds(s, seq![','], 0);
}

/// Trimming changes nothing when neither edge is white space.
pub proof fn lemma_trim_id(s: Seq<char>)
    requires
        s.len() > 0,
        !is_ws(s[0]),
        !is_ws(s.last()),
    ensures
        spec_trim(s) == s,
{
    assert(spec_trim_front(s) == s);
    assert(spec_trim_back(s) == s);
}

/// Splitting around one comma splits each side on its own.
pub proof fn lemma_split_concat(s: Seq<char>, t: Seq<char>)
    ensures
        spec_split_commas(s + seq![','] + t) == spec_split_commas(s) + spec_split_commas(t),
    decreases s.len(),
{
    let u = s + seq![','] + t;
    assert(u.len() == s.len() + 1 + t.len());
    assert(forall|j: int| 0 <= j < s.len() ==> u[j] == s[j]);
    assert(u[s.len() as int] == ',');
    match spec_find(s, seq![','], 0) {
        None => {
            lemma_find_none(s, seq![','], 0);
            assert forall|j: int| 0 <= j < s.len() implies !match_at(u, j, seq![',']) by {
                lemma_match1(u, j, ',');
                lemma_match1(s, j, ',');
                assert(!match_at(s, j, seq![',']));
            }
            lemma_match1(u, s.len() as int, ',');
            lemma_find_first(u, seq![','], 0, s.len() as int);
            assert(u.take(s.len() as int) =~= s);
            assert(u.skip(s.len() as int + 1) =~= t);
            assert(spec_split_commas(u) == seq![s] + spec_split_commas(t));
            assert(spec_split_commas(s) == seq![s]);
        },
        Some(k) => {
            lemma_find_bounds(s, seq![','], 0);
            lemma_find_min(s, seq![','], 0);
            lemma_match1(s, k, ',');
            lemma_match1(u, k, ',');
            assert forall|j: int| 0 <= j < k implies !match_at(u, j, seq![',']) by {
                lemma_match1(u, j, ',');
                lemma_match1(s, j, ',');
                assert(!match_at(s, j, seq![',']));
            }
            lemma_find_first(u, seq![','], 0, k);
            assert(u.take(k) =~= s.take(k));
            let srest = s.skip(k + 1);
            assert(u.skip(k + 1) =~= srest + seq![','] + t);
            lemma_split_concat(srest, t);
            assert(spec_split_commas(u) == seq![s.take(k)] + (spec_split_commas(srest)
                + spec_split_commas(t)));
            assert(spec_split_commas(s) == seq![s.take(k)] + spec_split_commas(srest));
            assert(seq![s.take(k)] + (spec_split_commas(srest) + spec_split_commas(t)) =~= (
            seq![s.take(k)] + spec_split_commas(srest)) + spec_split_commas(t));
        },
    }
}

/// A line before its terminator, with a final carriage return removed, as
/// `str::lines` yields it.
pub open spec fn strip_cr(l: Seq<char>) -> Seq<char> {
    if l.len() > 0 && l.last() == '\r' {
        l.drop_last()
    } else {
        l
    }
}

/// The lines of `s`, as `str::lines` yields them.
pub open spec fn spec_lines(s: Seq<char>) -> Seq<Seq<char>>
    decreases s.len(),
    via spec_lines_dec
{
    if s.len() == 0 {
        Seq::empty()
    } else {
        match spec_find(s, seq!['\n'], 0) {
            None => seq![s],
            Some(k) => seq![strip_cr(s.take(k))] + spec_lines(s.skip(k + 1)),
        }
    }
}

#[via_fn]
proof fn spec_lines_dec(s: Seq<char>) {
    lemma_find_bounds(s, seq!['\n'], 0);
}

/// The views of a sequence of character vectors.
pub open spec fn views_of(v: Seq<Vec<char>>) -> Seq<Seq<char>> {
    v.map_values(|x: Vec<char>| x@)
}

/// Splits captured text into lines.
#[verifier::loop_isolation(false)]
#[verifier::rlimit(60)]
pub fn split_lines(raw: &Vec<char>) -> (r: Vec<Vec<char>>)
    ensures
        views_of(r@) == spec_lines(raw@),
{
    let mut out: Vec<Vec<char>> = Vec::new();
    let mut pos: usize = 0;
    proof {
        assert(raw@.skip(0) =~= raw@);
        assert(views_of(out@) =~= Seq::<Seq<char>>::empty());
    }
    loop
        invariant
            pos <= raw@.len(),
            spec_lines(raw@) =~= views_of(out@) + spec_lines(raw@.skip(pos as int)),
        decreases raw@.len() - pos,
    {
        let ghost rest = raw@.skip(pos as int);
        if pos == raw.len() {
            proof {
                assert(rest =~= Seq::<char>::empty());
                assert(views_of(out@) =~= spec_lines(raw@));
            }
            return out;
        }
        match find_from(raw, pos, "\n") {
            Some(k) => {
                proof {
                    reveal_strlit("\n");
                    assert("\n"@ =~= seq!['\n']);
                    lemma_find_bounds(raw@, seq!['\n'], pos as int);
                    lemma_find_shift(raw@, seq!['\n'], pos as int, pos as int);
                    assert(match_at(raw@, k as int, seq!['\n']));
                    assert(raw@.subrange(k as int, k + 1) =~= seq!['\n']);
                    assert(raw@[k as int] == raw@.subrange(k as int, k + 1)[0]);
                    assert(raw@[k as int] == '\n');
                }
                let cut: usize = if k > pos && raw[k - 1] == '\r' {
                    k - 1
                } else {
                    k
                };
                let line = copy_range(raw, pos, cut);
                proof {
                    assert(rest.take(k - pos) =~= raw@.subrange(pos as int, k as int));
                    assert(strip_cr(rest.take(k - pos)) =~= line@) by {
                        if k > pos && raw@[k - 1] == '\r' {
                            assert(rest.take(k - pos).last() == '\r');
                            assert(rest.take(k - pos).drop_last() =~= raw@.subrange(
                                pos as int,
                                cut as int,
                            ));
                        } else {
                            if rest.take(k - pos).len() > 0 {
                                assert(rest.take(k - pos).last() == raw@[k - 1]);
                            }
                        }
                    }
                    assert(rest.skip(k + 1 - pos) =~= raw@.skip(k + 1));
                    assert(spec_lines(rest) =~= seq![line@] + spec_lines(raw@.skip(k + 1)));
                }
                let ghost acc = views_of(out@);
                out.push(line);
                pos = k + 1;
                proof {
                    assert(views_of(out@) =~= acc.push(line@));
                    assert(spec_lines(raw@) =~= views_of(out@) + spec_lines(
                        raw@.skip(pos as int),
                    ));
                }
            },
            None => {
                proof {
                    reveal_strlit("\n");
                    assert("\n"@ =~= seq!['\n']);
                    lemma_find_shift(raw@, seq!['\n'], pos as int, pos as int);
                    assert(spec_lines(rest) =~= seq![rest]);
                }
                let line = copy_range(raw, pos, raw.len());
                let ghost acc = views_of(out@);
                proof {
                    assert(line@ =~= rest);
                }
                out.push(line);
                proof {
                    assert(views_of(out@) =~= acc.push(line@));
                    assert(views_of(out@) =~= spec_lines(raw@));
                }
                return out;
            },
        }
    }
}

} // verus!

//! Heuristic complexity labels: fixed thresholds on aggregate wall-clock time
//! and on peak memory. These are best-effort annotations from magnitude
//! alone, never a derived asymptotic bound.
use vstd::prelude::*;

verus! {

/// The time bucket for a total case time in microseconds: five ordered
/// buckets from sub-millisecond up through multi-second.
pub open spec fn spec_time_label(us: nat) -> Seq<char> {
    if us < 1000 {
        "O(1)"@
    } else if us < 10000 {
        "O(log n)"@
    } else if us < 100000 {
        "O(n)"@
    } else if us < 1000000 {
        "O(n log n)"@
    } else {
        "O(n\u{b2})"@
    }
}

/// The space bucket for a peak-memory figure in KB: four ordered buckets.
pub open spec fn spec_space_label(kb: int) -> Seq<char> {
    if kb < 256 {
        "O(1)"@
    } else if kb < 1024 {
        "O(n)"@
    } else if kb < 10240 {
        "O(nlog n)"@
    } else {
        "O(n\u{b2})"@
    }
}

/// Buckets total case time (microseconds) by fixed thresholds.
pub fn estimate_time_complexity(us: u64) -> (r: &'static str)
    ensures
        r@ == spec_time_label(us as nat),
{
    if us < 1000 {
        "O(1)"
    } else if us < 10000 {
        "O(log n)"
    } else if us < 100000 {
        "O(n)"
    } else if us < 1000000 {
        "O(n log n)"
    } else {
        "O(n\u{b2})"
    }
}

/// Buckets peak memory (KB) by fixed thresholds.
pub fn estimate_space_complexity(kb: i64) -> (r: &'static str)
    ensures
        r@ == spec_space_label(kb as int),
{
    if kb < 256 {
        "O(1)"
    } else if kb < 1024 {
        "O(n)"
    } else if kb < 10240 {
        "O(nlog n)"
    } else {
        "O(n\u{b2})"
    }
}

} // verus!

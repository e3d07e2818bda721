//! Percentiles of a run's latencies, by the ceiling-pair rule.
//!
//! For `len` durations in ascending order and a percentage `percent`, the
//! position looked at is `percent / 100 * (len - 1)`. A whole position names
//! the duration reported. A fractional one is rounded up, and the mean of the
//! duration there and of its successor is reported. A position that rounds up
//! to the last index or beyond reports the last duration.

use vstd::prelude::*;

verus! {

/// Whether `durations` is in ascending order.
pub open spec fn ascending(durations: Seq<u64>) -> bool {
    forall|i: int, j: int| 0 <= i <= j < durations.len() ==> durations[i] <= durations[j]
}

/// Whether `percent / 100 * (len - 1)` is a whole number.
pub open spec fn position_is_whole(len: nat, percent: nat) -> bool {
    (percent * (len - 1)) % 100 == 0
}

/// `percent / 100 * (len - 1)`, rounded up.
pub open spec fn position_ceil(len: nat, percent: nat) -> int {
    let scaled = percent * (len - 1);
    if scaled % 100 == 0 {
        scaled / 100
    } else {
        scaled / 100 + 1
    }
}

/// The `percent`-th percentile of `durations`, which holds at least one
/// duration and is meant to be in ascending order.
pub open spec fn percentile(durations: Seq<u64>, percent: nat) -> int
    recommends
        durations.len() > 0,
{
    let last = durations.len() - 1;
    let at = position_ceil(durations.len(), percent);
    if at >= last {
        durations[last] as int
    } else if position_is_whole(durations.len(), percent) {
        durations[at] as int
    } else {
        (durations[at] + durations[at + 1]) / 2
    }
}

/// Computes the `percent`-th percentile of `durations`, which the caller has
/// put in ascending order.
pub fn percenteil(durations: &Vec<u64>, percent: u64) -> (value: u64)
    requires
        durations.len() > 0,
    ensures
        value == percentile(durations@, percent as nat),
{
    let last_index: usize = durations.len() - 1;
    assert(last_index * percent <= u128::MAX) by (nonlinear_arith)
        requires
            last_index <= u64::MAX,
            percent <= u64::MAX,
    ;
    let scaled: u128 = (last_index as u128) * (percent as u128);
    assert(scaled == (percent as nat) * ((durations@.len() - 1) as nat)) by (nonlinear_arith)
        requires
            scaled == last_index * percent,
            last_index == durations@.len() - 1,
    ;
    let whole: bool = scaled % 100 == 0;
    let ceil: u128 = if whole {
        scaled / 100
    } else {
        scaled / 100 + 1
    };
    if ceil >= last_index as u128 {
        return durations[last_index];
    }
    let at: usize = ceil as usize;
    if whole {
        durations[at]
    } else {
        let pair: u128 = durations[at] as u128 + durations[at + 1] as u128;
        (pair / 2) as u64
    }
}

/// At 100 % and above the percentile is the last duration, which in an
/// ascending sequence is the longest one observed.
pub proof fn lemma_full_percentile_is_longest(durations: Seq<u64>, percent: nat)
    requires
        durations.len() > 0,
        ascending(durations),
        percent >= 100,
    ensures
        percentile(durations, percent) == durations.last(),
        forall|i: int| 0 <= i < durations.len() ==> durations[i] <= percentile(durations, percent),
{
    let last = (durations.len() - 1) as nat;
    assert(percent * last >= 100 * last) by (nonlinear_arith)
        requires
            percent >= 100,
            last >= 0,
    ;
}

/// Every percentile of an ascending sequence lies between its shortest and
/// its longest duration.
pub proof fn lemma_percentile_within_observed(durations: Seq<u64>, percent: nat)
    requires
        durations.len() > 0,
        ascending(durations),
    ensures
        durations.first() <= percentile(durations, percent) <= durations.last(),
{
    let last = (durations.len() - 1) as nat;
    assert(percent * last >= 0) by (nonlinear_arith)
        requires
            percent >= 0,
            last >= 0,
    ;
}

/// A single duration is every percentile of itself.
pub proof fn lemma_percentile_of_one(durations: Seq<u64>, percent: nat)
    requires
        durations.len() == 1,
    ensures
        percentile(durations, percent) == durations[0],
{
}

} // verus!

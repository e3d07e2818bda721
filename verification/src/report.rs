//! The statistics of a finished run.
//!
//! Everything reported is a function of the outcomes as a collection: the
//! order in which the requests completed does not show in any figure.

use vstd::multiset::Multiset;
use vstd::prelude::*;
use crate::outcome::{Class, RequestOutcome, TestOutcome};
use crate::percentile::{ascending, percenteil, percentile};

verus! {

/// How many of `outcomes` are counted under `class`.
pub open spec fn tally(outcomes: Seq<RequestOutcome>, class: Class) -> nat
    decreases outcomes.len(),
{
    if outcomes.len() == 0 {
        0
    } else {
        tally(outcomes.drop_last(), class) + if outcomes.last().counts_as(class) {
            1nat
        } else {
            0nat
        }
    }
}

/// The durations of `outcomes`, in the same order.
pub open spec fn durations_of(outcomes: Seq<RequestOutcome>) -> Seq<u64> {
    outcomes.map_values(|outcome: RequestOutcome| outcome.duration)
}

/// The sum of `durations`.
pub open spec fn sum(durations: Seq<u64>) -> nat
    decreases durations.len(),
{
    if durations.len() == 0 {
        0
    } else {
        sum(durations.drop_last()) + durations.last() as nat
    }
}

/// Whether `sorted` is `durations` rearranged into ascending order: it is
/// ascending and holds the same durations, each as often.
pub open spec fn is_ascending_order_of(sorted: Seq<u64>, durations: Seq<u64>) -> bool {
    ascending(sorted) && sorted.to_multiset() == durations.to_multiset()
}

/// `durations` rearranged into ascending order.
pub open spec fn in_ascending_order(durations: Seq<u64>) -> Seq<u64> {
    choose|sorted: Seq<u64>| is_ascending_order_of(sorted, durations)
}

/// There is such a rearrangement of every sequence: it is ascending, it
/// holds the same durations, each as often as before, and so it is as long.
pub proof fn lemma_in_ascending_order(durations: Seq<u64>)
    ensures
        is_ascending_order_of(in_ascending_order(durations), durations),
        in_ascending_order(durations).len() == durations.len(),
        forall|duration: u64|
            in_ascending_order(durations).contains(duration) <==> durations.contains(duration),
{
    let leq = |a: u64, b: u64| a <= b;
    let merged = durations.sort_by(leq);
    durations.lemma_sort_by_ensures(leq);
    assert forall|i: int, j: int| 0 <= i <= j < merged.len() implies merged[i] <= merged[j] by {
        if i < j {
            assert(leq(merged[i], merged[j]));
        }
    }
    assert(is_ascending_order_of(merged, durations));
    let sorted = in_ascending_order(durations);
    durations.to_multiset_ensures();
    sorted.to_multiset_ensures();
    assert forall|duration: u64| sorted.contains(duration) <==> durations.contains(duration) by {
        assert(sorted.to_multiset().count(duration) == durations.to_multiset().count(duration));
    }
}

/// There is one such rearrangement only: two ascending sequences that hold
/// the same durations, each as often in one as in the other, are the same
/// sequence.
pub proof fn lemma_ascending_is_unique(a: Seq<u64>, b: Seq<u64>)
    requires
        ascending(a),
        ascending(b),
        a.to_multiset() == b.to_multiset(),
    ensures
        a == b,
{
    let leq = |x: u64, y: u64| x <= y;
    vstd::seq_lib::lemma_sorted_unique(a, b, leq);
}

/// Sorts `durations` with `sort_unstable` of the standard library's slices,
/// which leaves the slice in ascending order and, being a sort, changes only
/// the order of its elements.
#[verifier::external_body]
fn sort_ascending(durations: &mut Vec<u64>)
    ensures
        is_ascending_order_of(final(durations)@, old(durations)@),
{
    durations.sort_unstable();
}

/// Counts `outcomes` under each class: responses, server errors among them,
/// and transport errors, in this order.
pub fn classify(outcomes: &Vec<RequestOutcome>) -> (counts: (usize, usize, usize))
    ensures
        counts.0 == tally(outcomes@, Class::Completed),
        counts.1 == tally(outcomes@, Class::ServerError),
        counts.2 == tally(outcomes@, Class::TransportError),
{
    let mut ok_count: usize = 0;
    let mut server_err_count: usize = 0;
    let mut err_count: usize = 0;
    let mut i: usize = 0;
    while i < outcomes.len()
        invariant
            i <= outcomes.len(),
            ok_count == tally(outcomes@.take(i as int), Class::Completed),
            server_err_count == tally(outcomes@.take(i as int), Class::ServerError),
            err_count == tally(outcomes@.take(i as int), Class::TransportError),
            ok_count <= i,
            server_err_count <= i,
            err_count <= i,
        decreases outcomes.len() - i,
    {
        assert(outcomes@.take(i + 1).drop_last() == outcomes@.take(i as int));
        let outcome = &outcomes[i];
        if outcome.is_counted_as(Class::Completed) {
            ok_count = ok_count + 1;
        }
        if outcome.is_counted_as(Class::ServerError) {
            server_err_count = server_err_count + 1;
        }
        if outcome.is_counted_as(Class::TransportError) {
            err_count = err_count + 1;
        }
        i = i + 1;
    }
    assert(outcomes@.take(i as int) == outcomes@);
    (ok_count, server_err_count, err_count)
}

/// The durations of `outcomes`, in the same order.
pub fn collect_durations(outcomes: &Vec<RequestOutcome>) -> (durations: Vec<u64>)
    ensures
        durations@ == durations_of(outcomes@),
{
    let mut durations: Vec<u64> = Vec::new();
    let mut i: usize = 0;
    while i < outcomes.len()
        invariant
            i <= outcomes.len(),
            durations@ == durations_of(outcomes@.take(i as int)),
        decreases outcomes.len() - i,
    {
        durations.push(outcomes[i].duration);
        i = i + 1;
    }
    durations
}

/// The sum of `durations`. It cannot overflow: fewer than 2^64 durations of
/// less than 2^64 nanoseconds each are added.
pub fn total_duration(durations: &Vec<u64>) -> (total: u128)
    ensures
        total == sum(durations@),
{
    let mut total: u128 = 0;
    let mut i: usize = 0;
    while i < durations.len()
        invariant
            i <= durations.len(),
            total == sum(durations@.take(i as int)),
            total <= i * u64::MAX,
        decreases durations.len() - i,
    {
        assert(durations@.take(i + 1).drop_last() == durations@.take(i as int));
        total = total + durations[i] as u128;
        i = i + 1;
    }
    assert(durations@.take(i as int) == durations@);
    total
}

/// The figures reported of a run. Times are in nanoseconds.
#[derive(Clone, Copy, Debug, PartialEq, Eq, Structural)]
pub struct Report {
    pub total_requests: usize,
    pub concurrent_count: usize,
    /// Requests that were answered, whatever the status.
    pub ok_count: usize,
    /// Requests that were answered with a 5xx status.
    pub server_error_count: usize,
    /// Requests that failed below HTTP.
    pub transport_error_count: usize,
    /// How long the whole run took.
    pub total_time: u64,
    /// `total_time` divided by the number of requests.
    pub avg_time_taken: u64,
    /// The sum of the durations of all requests.
    pub total_time_in_flight: u128,
    /// `total_time_in_flight` divided by the number of requests.
    pub avg_time_in_flight: u128,
    pub p50: u64,
    pub p66: u64,
    pub p75: u64,
    pub p80: u64,
    pub p90: u64,
    pub p95: u64,
    pub p99: u64,
    /// The 100 % percentile.
    pub longest: u64,
}

impl Report {
    /// Whether these are the figures of a run with the given outcomes,
    /// total time and concurrency limit.
    pub open spec fn describes(
        self,
        outcomes: Seq<RequestOutcome>,
        total_time: u64,
        concurrent_count: usize,
    ) -> bool {
        let durations = durations_of(outcomes);
        let sorted = in_ascending_order(durations);
        &&& self.total_requests == outcomes.len()
        &&& self.concurrent_count == concurrent_count
        &&& self.ok_count == tally(outcomes, Class::Completed)
        &&& self.server_error_count == tally(outcomes, Class::ServerError)
        &&& self.transport_error_count == tally(outcomes, Class::TransportError)
        &&& self.total_time == total_time
        &&& self.avg_time_taken == total_time as int / outcomes.len() as int
        &&& self.total_time_in_flight == sum(durations)
        &&& self.avg_time_in_flight == sum(durations) as int / outcomes.len() as int
        &&& self.p50 == percentile(sorted, 50)
        &&& self.p66 == percentile(sorted, 66)
        &&& self.p75 == percentile(sorted, 75)
        &&& self.p80 == percentile(sorted, 80)
        &&& self.p90 == percentile(sorted, 90)
        &&& self.p95 == percentile(sorted, 95)
        &&& self.p99 == percentile(sorted, 99)
        &&& self.longest == percentile(sorted, 100)
    }
}

/// Every outcome is counted as a response or as a transport error, never as
/// both, and the server errors are among the responses.
pub proof fn lemma_tallies_partition(outcomes: Seq<RequestOutcome>)
    ensures
        tally(outcomes, Class::Completed) + tally(outcomes, Class::TransportError)
            == outcomes.len(),
        tally(outcomes, Class::ServerError) <= tally(outcomes, Class::Completed),
    decreases outcomes.len(),
{
    if outcomes.len() > 0 {
        lemma_tallies_partition(outcomes.drop_last());
    }
}

/// A run has one report: two reports that describe the same outcomes, total
/// time and concurrency limit agree in every figure.
pub proof fn lemma_report_is_determined(
    first: Report,
    second: Report,
    outcomes: Seq<RequestOutcome>,
    total_time: u64,
    concurrent_count: usize,
)
    requires
        first.describes(outcomes, total_time, concurrent_count),
        second.describes(outcomes, total_time, concurrent_count),
    ensures
        first == second,
{
}

proof fn lemma_tally_ignores_order(a: Seq<RequestOutcome>, b: Seq<RequestOutcome>, class: Class)
    requires
        a.to_multiset() == b.to_multiset(),
    ensures
        tally(a, class) == tally(b, class),
{
    let step = |count: nat, outcome: RequestOutcome|
        if outcome.counts_as(class) {
            count + 1
        } else {
            count
        };
    lemma_tally_is_fold(a, class, step);
    lemma_tally_is_fold(b, class, step);
    vstd::seq_lib::lemma_fold_left_permutation(a, b, step, 0nat);
}

proof fn lemma_tally_is_fold(
    outcomes: Seq<RequestOutcome>,
    class: Class,
    step: spec_fn(nat, RequestOutcome) -> nat,
)
    requires
        forall|count: nat, outcome: RequestOutcome| #[trigger]
            step(count, outcome) == if outcome.counts_as(class) {
                count + 1
            } else {
                count
            },
    ensures
        tally(outcomes, class) == outcomes.fold_left(0nat, step),
    decreases outcomes.len(),
{
    if outcomes.len() > 0 {
        lemma_tally_is_fold(outcomes.drop_last(), class, step);
    }
}

proof fn lemma_sum_ignores_order(a: Seq<u64>, b: Seq<u64>)
    requires
        a.to_multiset() == b.to_multiset(),
    ensures
        sum(a) == sum(b),
{
    let step = |total: nat, duration: u64| total + duration as nat;
    lemma_sum_is_fold(a, step);
    lemma_sum_is_fold(b, step);
    vstd::seq_lib::lemma_fold_left_permutation(a, b, step, 0nat);
}

proof fn lemma_sum_is_fold(durations: Seq<u64>, step: spec_fn(nat, u64) -> nat)
    requires
        forall|total: nat, duration: u64| #[trigger] step(total, duration) == total + duration,
    ensures
        sum(durations) == durations.fold_left(0nat, step),
    decreases durations.len(),
{
    if durations.len() > 0 {
        lemma_sum_is_fold(durations.drop_last(), step);
    }
}

proof fn lemma_durations_ignore_order(a: Seq<RequestOutcome>, b: Seq<RequestOutcome>)
    requires
        a.to_multiset() == b.to_multiset(),
    ensures
        durations_of(a).to_multiset() == durations_of(b).to_multiset(),
{
    let step = |seen: Multiset<u64>, outcome: RequestOutcome| seen.insert(outcome.duration);
    assert forall|x: RequestOutcome, y: RequestOutcome, seen: Multiset<u64>|
        #[trigger] step(step(seen, x), y) == step(step(seen, y), x) by {
        assert(seen.insert(x.duration).insert(y.duration) =~= seen.insert(y.duration).insert(
            x.duration,
        ));
    }
    lemma_durations_are_fold(a, step);
    lemma_durations_are_fold(b, step);
    vstd::seq_lib::lemma_fold_left_permutation(a, b, step, Multiset::<u64>::empty());
}

proof fn lemma_durations_are_fold(
    outcomes: Seq<RequestOutcome>,
    step: spec_fn(Multiset<u64>, RequestOutcome) -> Multiset<u64>,
)
    requires
        forall|seen: Multiset<u64>, outcome: RequestOutcome| #[trigger]
            step(seen, outcome) == seen.insert(outcome.duration),
    ensures
        durations_of(outcomes).to_multiset() == outcomes.fold_left(Multiset::<u64>::empty(), step),
    decreases outcomes.len(),
{
    if outcomes.len() == 0 {
        durations_of(outcomes).to_multiset_ensures();
    } else {
        lemma_durations_are_fold(outcomes.drop_last(), step);
        assert(durations_of(outcomes) == durations_of(outcomes.drop_last()).push(
            outcomes.last().duration,
        ));
        durations_of(outcomes.drop_last()).to_multiset_ensures();
    }
}

/// The report does not depend on the order in which the requests completed:
/// figures that describe a run describe every run with the same outcomes in
/// another order.
pub proof fn lemma_report_ignores_order(
    report: Report,
    outcomes: Seq<RequestOutcome>,
    reordered: Seq<RequestOutcome>,
    total_time: u64,
    concurrent_count: usize,
)
    requires
        outcomes.to_multiset() == reordered.to_multiset(),
        report.describes(outcomes, total_time, concurrent_count),
    ensures
        report.describes(reordered, total_time, concurrent_count),
{
    outcomes.to_multiset_ensures();
    reordered.to_multiset_ensures();
    lemma_tally_ignores_order(outcomes, reordered, Class::Completed);
    lemma_tally_ignores_order(outcomes, reordered, Class::ServerError);
    lemma_tally_ignores_order(outcomes, reordered, Class::TransportError);
    lemma_durations_ignore_order(outcomes, reordered);
    lemma_sum_ignores_order(durations_of(outcomes), durations_of(reordered));
    lemma_in_ascending_order(durations_of(outcomes));
    lemma_in_ascending_order(durations_of(reordered));
    lemma_ascending_is_unique(
        in_ascending_order(durations_of(outcomes)),
        in_ascending_order(durations_of(reordered)),
    );
}

/// The longest duration reported is one that was observed, and no observed
/// duration exceeds it.
pub proof fn lemma_longest_is_maximum(
    report: Report,
    outcomes: Seq<RequestOutcome>,
    total_time: u64,
    concurrent_count: usize,
)
    requires
        outcomes.len() > 0,
        report.describes(outcomes, total_time, concurrent_count),
    ensures
        exists|i: int| 0 <= i < outcomes.len() && #[trigger] outcomes[i].duration == report.longest,
        forall|i: int| 0 <= i < outcomes.len() ==> #[trigger] outcomes[i].duration <= report.longest,
{
    let durations = durations_of(outcomes);
    let sorted = in_ascending_order(durations);
    lemma_in_ascending_order(durations);
    crate::percentile::lemma_full_percentile_is_longest(sorted, 100);
    assert(durations.contains(sorted.last()));
    assert(outcomes[durations.index_of(sorted.last())].duration == report.longest);
    assert forall|i: int| 0 <= i < outcomes.len() implies #[trigger] outcomes[i].duration
        <= report.longest by {
        assert(durations.contains(durations[i]));
        assert(sorted[sorted.index_of(durations[i])] <= sorted.last());
    }
}

/// Where every request took at least `shortest` and at most `longest`, so
/// does every percentile reported.
pub proof fn lemma_percentiles_within_observed(
    report: Report,
    outcomes: Seq<RequestOutcome>,
    total_time: u64,
    concurrent_count: usize,
    shortest: u64,
    longest: u64,
)
    requires
        outcomes.len() > 0,
        report.describes(outcomes, total_time, concurrent_count),
        forall|i: int|
            0 <= i < outcomes.len() ==> shortest <= (#[trigger] outcomes[i]).duration <= longest,
    ensures
        shortest <= report.p50 <= longest,
        shortest <= report.p66 <= longest,
        shortest <= report.p75 <= longest,
        shortest <= report.p80 <= longest,
        shortest <= report.p90 <= longest,
        shortest <= report.p95 <= longest,
        shortest <= report.p99 <= longest,
        shortest <= report.longest <= longest,
{
    let durations = durations_of(outcomes);
    let sorted = in_ascending_order(durations);
    lemma_in_ascending_order(durations);
    assert forall|j: int| 0 <= j < sorted.len() implies shortest <= #[trigger] sorted[j]
        <= longest by {
        assert(durations.contains(sorted[j]));
        assert(outcomes[durations.index_of(sorted[j])].duration == sorted[j]);
    }
    crate::percentile::lemma_percentile_within_observed(sorted, 50);
    crate::percentile::lemma_percentile_within_observed(sorted, 66);
    crate::percentile::lemma_percentile_within_observed(sorted, 75);
    crate::percentile::lemma_percentile_within_observed(sorted, 80);
    crate::percentile::lemma_percentile_within_observed(sorted, 90);
    crate::percentile::lemma_percentile_within_observed(sorted, 95);
    crate::percentile::lemma_percentile_within_observed(sorted, 99);
    crate::percentile::lemma_percentile_within_observed(sorted, 100);
}

impl TestOutcome {
    /// Reduces the run to its figures.
    pub fn report(&self) -> (report: Report)
        requires
            self.request_outcomes.len() > 0,
        ensures
            report.describes(self.request_outcomes@, self.total_time, self.concurrent_count),
    {
        let total_requests: usize = self.request_outcomes.len();
        let (ok_count, server_error_count, transport_error_count) = classify(
            &self.request_outcomes,
        );
        let mut durations = collect_durations(&self.request_outcomes);
        let total_time_in_flight: u128 = total_duration(&durations);
        let avg_time_in_flight: u128 = total_time_in_flight / (total_requests as u128);

        sort_ascending(&mut durations);
        proof {
            let unsorted = durations_of(self.request_outcomes@);
            lemma_in_ascending_order(unsorted);
            lemma_ascending_is_unique(durations@, in_ascending_order(unsorted));
        }
        Report {
            total_requests,
            concurrent_count: self.concurrent_count,
            ok_count,
            server_error_count,
            transport_error_count,
            total_time: self.total_time,
            avg_time_taken: self.total_time / (total_requests as u64),
            total_time_in_flight,
            avg_time_in_flight,
            p50: percenteil(&durations, 50),
            p66: percenteil(&durations, 66),
            p75: percenteil(&durations, 75),
            p80: percenteil(&durations, 80),
            p90: percenteil(&durations, 90),
            p95: percenteil(&durations, 95),
            p99: percenteil(&durations, 99),
            longest: percenteil(&durations, 100),
        }
    }
}

} // verus!

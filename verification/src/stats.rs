//! Summary statistics of a collection of durations.

use vstd::prelude::*;
use vstd::relations::{sorted_by, total_ordering};
use vstd::seq_lib::lemma_sorted_unique;
use crate::time::Duration;

verus! {

/// The order of the numbers.
pub open spec fn at_most() -> spec_fn(u64, u64) -> bool {
    |a: u64, b: u64| a <= b
}

/// The lengths of the durations in nanoseconds, in their order.
pub open spec fn nanos_of(durations: Seq<Duration>) -> Seq<u64> {
    durations.map_values(|d: Duration| d.nanos)
}

/// The lengths of the durations in nanoseconds, smallest first.
pub open spec fn ascending_nanos(durations: Seq<Duration>) -> Seq<u64> {
    nanos_of(durations).sort_by(at_most())
}

/// The sum of the values.
pub open spec fn total(values: Seq<u64>) -> nat
    decreases values.len(),
{
    if values.len() == 0 {
        0
    } else {
        total(values.drop_last()) + values.last() as nat
    }
}

/// The place of a percentile among `count` values in ascending order:
/// `count * percent / 100` rounded down, and no further than the last place.
pub open spec fn percentile_index(count: nat, percent: nat) -> nat
    recommends
        count > 0,
{
    if count * percent / 100 >= count {
        (count - 1) as nat
    } else {
        count * percent / 100
    }
}

/// The middle of the values in ascending order: the middle value of an odd
/// number of them, else the mean of the two in the middle, rounded down.
pub open spec fn middle(ascending: Seq<u64>) -> nat
    recommends
        ascending.len() > 0,
{
    let n = ascending.len() as int;
    if n % 2 == 0 {
        ((ascending[n / 2 - 1] + ascending[n / 2]) / 2) as nat
    } else {
        ascending[n / 2] as nat
    }
}

/// What is known of a collection of durations. Every field is zero for an
/// empty collection.
#[derive(Debug, Clone, Copy, PartialEq, Eq, Structural)]
pub struct DurationStats {
    pub min: Duration,
    pub max: Duration,
    /// The arithmetic mean, rounded down to a whole nanosecond.
    pub mean: Duration,
    pub median: Duration,
    /// The 95th percentile.
    pub p95: Duration,
    /// The 99th percentile.
    pub p99: Duration,
    /// How many durations there were.
    pub count: usize,
}

/// Puts the values in ascending order. This is `sort` of the standard
/// library's slices, of which its documentation says that it orders the
/// slice; that it keeps every element, each as often as it was there, is
/// what sorting in place means.
#[verifier::external_body]
fn sort_ascending(values: &mut Vec<u64>)
    ensures
        sorted_by(final(values)@, at_most()),
        final(values)@.to_multiset() == old(values)@.to_multiset(),
{
    values.sort();
}

proof fn lemma_total_bounded(values: Seq<u64>)
    ensures
        total(values) <= values.len() * u64::MAX,
    decreases values.len(),
{
    if values.len() > 0 {
        lemma_total_bounded(values.drop_last());
        assert((values.len() - 1) * u64::MAX + u64::MAX == values.len() * u64::MAX)
            by (nonlinear_arith);
    }
}

proof fn lemma_mean_fits(sum: nat, count: nat)
    requires
        count > 0,
        sum <= count * u64::MAX,
    ensures
        sum / count <= u64::MAX,
{
    assert(sum / count <= u64::MAX) by (nonlinear_arith)
        requires
            count > 0,
            sum <= count * u64::MAX,
    ;
}

proof fn lemma_total_between(values: Seq<u64>, low: u64, high: u64)
    requires
        forall|i: int| 0 <= i < values.len() ==> low <= #[trigger] values[i] <= high,
    ensures
        values.len() * low <= total(values) <= values.len() * high,
    decreases values.len(),
{
    if values.len() > 0 {
        let rest = values.drop_last();
        assert forall|i: int| 0 <= i < rest.len() implies low <= #[trigger] rest[i] <= high by {
            assert(rest[i] == values[i]);
        }
        lemma_total_between(rest, low, high);
        assert((values.len() - 1) * low + low == values.len() * low) by (nonlinear_arith);
        assert((values.len() - 1) * high + high == values.len() * high) by (nonlinear_arith);
    } else {
        assert(values.len() * low == 0 && values.len() * high == 0) by (nonlinear_arith)
            requires
                values.len() == 0,
        ;
    }
}

/// The statistics of durations stand in order: the smallest is no larger
/// than the mean, the median and the percentiles, none of which is larger
/// than the largest, and the 95th percentile is no larger than the 99th.
pub proof fn lemma_statistics_are_ordered(durations: Seq<Duration>)
    requires
        0 < durations.len() <= usize::MAX,
    ensures
        ({
            let stats = DurationStats::of(durations);
            &&& stats.count == durations.len()
            &&& stats.min.nanos <= stats.mean.nanos <= stats.max.nanos
            &&& stats.min.nanos <= stats.median.nanos <= stats.max.nanos
            &&& stats.min.nanos <= stats.p95.nanos <= stats.p99.nanos <= stats.max.nanos
        }),
{
    let n = durations.len() as int;
    let nanos = nanos_of(durations);
    let sorted = ascending_nanos(durations);
    assert(total_ordering(at_most()));
    nanos.lemma_sort_by_ensures(at_most());
    nanos.to_multiset_ensures();
    sorted.to_multiset_ensures();
    assert(sorted.len() == n);
    let low = sorted[0];
    let high = sorted[n - 1];
    assert forall|i: int| 0 <= i < n implies low <= #[trigger] sorted[i] <= high by {
        if 0 < i {
            assert(at_most()(sorted[0], sorted[i]));
        }
        if i < n - 1 {
            assert(at_most()(sorted[i], sorted[n - 1]));
        }
    }
    assert forall|i: int| 0 <= i < n implies low <= #[trigger] nanos[i] <= high by {
        assert(nanos.to_multiset().count(nanos[i]) > 0);
        assert(sorted.to_multiset().count(nanos[i]) > 0);
        assert(sorted.contains(nanos[i]));
        let k = choose|k: int| 0 <= k < sorted.len() && sorted[k] == nanos[i];
        assert(low <= sorted[k] <= high);
    }
    lemma_total_between(nanos, low, high);
    let sum = total(nanos) as int;
    assert(low <= sum / n <= high) by (nonlinear_arith)
        requires
            n > 0,
            n * low <= sum <= n * high,
    ;
    let p95 = percentile_index(n as nat, 95) as int;
    let p99 = percentile_index(n as nat, 99) as int;
    assert(n * 95 / 100 <= n * 99 / 100) by (nonlinear_arith)
        requires
            n > 0,
    ;
    assert(0 <= p95 <= p99 < n) by (nonlinear_arith)
        requires
            n > 0,
            n * 95 / 100 <= n * 99 / 100,
            p95 == (if n * 95 / 100 >= n {
                n - 1
            } else {
                n * 95 / 100
            }),
            p99 == (if n * 99 / 100 >= n {
                n - 1
            } else {
                n * 99 / 100
            }),
    ;
    if p95 < p99 {
        assert(at_most()(sorted[p95], sorted[p99]));
    }
    assert(low <= sorted[p95] <= high);
    assert(low <= sorted[p99] <= high);
    if n % 2 == 0 {
        assert(low <= sorted[n / 2 - 1] <= high);
        assert(low <= sorted[n / 2] <= high);
    } else {
        assert(low <= sorted[n / 2] <= high);
    }
}

impl DurationStats {
    /// The statistics of an empty collection.
    pub open spec fn empty() -> DurationStats {
        let zero = Duration { nanos: 0 };
        DurationStats {
            min: zero,
            max: zero,
            mean: zero,
            median: zero,
            p95: zero,
            p99: zero,
            count: 0,
        }
    }

    /// The statistics of `durations`.
    pub open spec fn of(durations: Seq<Duration>) -> DurationStats {
        if durations.len() == 0 {
            Self::empty()
        } else {
            let n = durations.len();
            let ascending = ascending_nanos(durations);
            DurationStats {
                min: Duration { nanos: ascending[0] },
                max: Duration { nanos: ascending[n - 1] },
                mean: Duration { nanos: (total(nanos_of(durations)) / n) as u64 },
                median: Duration { nanos: middle(ascending) as u64 },
                p95: Duration { nanos: ascending[percentile_index(n, 95) as int] },
                p99: Duration { nanos: ascending[percentile_index(n, 99) as int] },
                count: n as usize,
            }
        }
    }

    fn percentile(ascending: &Vec<u64>, percent: u8) -> (value: u64)
        requires
            ascending@.len() > 0,
            percent <= 100,
        ensures
            value == ascending@[percentile_index(ascending@.len(), percent as nat) as int],
    {
        let n: usize = ascending.len();
        assert(n * percent <= usize::MAX * 100) by (nonlinear_arith)
            requires
                n <= usize::MAX,
                percent <= 100,
        ;
        let scaled: u128 = (n as u128) * (percent as u128) / 100;
        let index: usize = if scaled >= n as u128 {
            n - 1
        } else {
            scaled as usize
        };
        ascending[index]
    }

    /// Computes the statistics of `durations`. An empty collection gives
    /// zeros; there is no input on which this fails.
    pub fn from_durations(durations: Vec<Duration>) -> (stats: DurationStats)
        ensures
            stats == Self::of(durations@),
    {
        let n: usize = durations.len();
        if n == 0 {
            return DurationStats {
                min: Duration::zero(),
                max: Duration::zero(),
                mean: Duration::zero(),
                median: Duration::zero(),
                p95: Duration::zero(),
                p99: Duration::zero(),
                count: 0,
            };
        }
        let mut nanos: Vec<u64> = Vec::new();
        let mut sum: u128 = 0;
        for i in 0..n
            invariant
                n == durations@.len(),
                nanos@ == nanos_of(durations@.take(i as int)),
                sum == total(nanos@),
                sum <= i * u64::MAX,
        {
            proof {
                let before = nanos_of(durations@.take(i as int));
                let after = nanos_of(durations@.take(i + 1));
                assert(after =~= before.push(durations@[i as int].nanos));
                assert(after.drop_last() =~= before);
                assert((i + 1) * u64::MAX == i * u64::MAX + u64::MAX) by (nonlinear_arith);
                assert(n * u64::MAX <= usize::MAX * u64::MAX) by (nonlinear_arith)
                    requires
                        n <= usize::MAX,
                ;
                assert(i * u64::MAX <= n * u64::MAX) by (nonlinear_arith)
                    requires
                        i <= n,
                ;
            }
            nanos.push(durations[i].nanos);
            sum = sum + durations[i].nanos as u128;
        }
        proof {
            assert(durations@.take(n as int) =~= durations@);
            lemma_mean_fits(sum as nat, n as nat);
        }
        let mean: u64 = (sum / n as u128) as u64;
        let ghost unsorted = nanos@;
        sort_ascending(&mut nanos);
        proof {
            assert(total_ordering(at_most()));
            unsorted.lemma_sort_by_ensures(at_most());
            lemma_sorted_unique(nanos@, unsorted.sort_by(at_most()), at_most());
            assert(nanos@ == ascending_nanos(durations@));
            unsorted.to_multiset_ensures();
            nanos@.to_multiset_ensures();
        }
        let median: u64 = if n % 2 == 0 {
            ((nanos[n / 2 - 1] as u128 + nanos[n / 2] as u128) / 2) as u64
        } else {
            nanos[n / 2]
        };
        DurationStats {
            min: Duration { nanos: nanos[0] },
            max: Duration { nanos: nanos[n - 1] },
            mean: Duration { nanos: mean },
            median: Duration { nanos: median },
            p95: Duration { nanos: Self::percentile(&nanos, 95) },
            p99: Duration { nanos: Self::percentile(&nanos, 99) },
            count: n,
        }
    }
}

} // verus!

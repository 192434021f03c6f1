use vstd::prelude::*;
use vstd::multiset::Multiset;
use crate::hist::DurationHistograms;
use crate::hist::Hist;
use crate::hist::buckets_ok;
use crate::hist::fixed_sig;
use crate::hist::bucket_floor;
use crate::hist::floor_le_pred;
use crate::hist::hist_buckets;
use crate::hist::hist_count;
use crate::hist::hist_sig;
use crate::hist::rank_at_or_below;
use crate::hist::recorded_of;
use crate::hist::sum_counts;
use crate::laws::lemma_filter_le_len;

verus! {

/// The three monotonic counters of a run: rows decoded, rows passing the
/// full filter, and matched rows whose duration failed validation.
#[derive(Clone, Copy, Debug, PartialEq, Eq, Structural)]
pub struct RecordCounts {
    pub read: u32,
    pub matched: u32,
    pub skipped: u32,
}

impl Default for RecordCounts {
    fn default() -> (r: Self)
        ensures
            r.read == 0,
            r.matched == 0,
            r.skipped == 0,
    {
        RecordCounts { read: 0, matched: 0, skipped: 0 }
    }
}

/// Per-hour duration statistics in whole seconds; the presentation layer
/// divides by 60 for minute-valued output.
#[derive(Clone, Copy, Debug, PartialEq, Eq, Structural)]
pub struct StatsEntry {
    pub hour_of_day: u8,
    pub minimum_s: u64,
    pub median_s: u64,
    pub p95_s: u64,
}

/// The whole summary of a run: the counters and one entry per hour of day.
#[derive(Debug, PartialEq, Eq)]
pub struct DisplayStats {
    pub record_counts: RecordCounts,
    pub stats: Vec<StatsEntry>,
}

/// The count that the q-th order statistic must reach, `ceil(total * num /
/// den)` and at least 1.
pub open spec fn quantile_threshold(total: nat, num: nat, den: nat) -> nat
    recommends
        den >= 1,
{
    let c = (total * num + den - 1) as int / den as int;
    if c < 1 {
        1
    } else {
        c as nat
    }
}

/// `v` is the lowest bucket floor among the recorded values.
pub open spec fn is_min_floor(m: Multiset<u64>, v: u64) -> bool {
    &&& exists|w: u64| m.count(w) > 0 && v == bucket_floor(w)
    &&& forall|w: u64| m.count(w) > 0 ==> v <= #[trigger] bucket_floor(w)
}

/// `v` is the lowest bucket floor whose rank reaches `threshold`: the bucket
/// holding the `threshold`-th smallest recorded value.
pub open spec fn is_quantile_value(m: Multiset<u64>, threshold: nat, v: u64) -> bool {
    &&& exists|w: u64| m.count(w) > 0 && v == bucket_floor(w)
    &&& rank_at_or_below(m, v) >= threshold
    &&& forall|w: u64|
        m.count(w) > 0 && #[trigger] bucket_floor(w) < v ==> rank_at_or_below(m, bucket_floor(w))
            < threshold
}

/// What one emitted entry says of the durations recorded for its hour: the
/// empty-state reading 0 for an hour with no observation, else the bucket
/// floors of the minimum, the median and the 95th percentile, all within
/// the accepted duration range.
pub open spec fn entry_ok(m: Multiset<u64>, e: StatsEntry) -> bool {
    if m.len() == 0 {
        e.minimum_s == 0 && e.median_s == 0 && e.p95_s == 0
    } else {
        &&& is_min_floor(m, e.minimum_s)
        &&& is_quantile_value(m, quantile_threshold(m.len(), 1, 2), e.median_s)
        &&& is_quantile_value(m, quantile_threshold(m.len(), 19, 20), e.p95_s)
        &&& 1200 <= e.minimum_s <= 10800
        &&& 1200 <= e.median_s <= 10800
        &&& 1200 <= e.p95_s <= 10800
    }
}

/// A histogram with recorded values has at least one bucket.
proof fn lemma_buckets_nonempty(r: Seq<(u64, u64)>, m: Multiset<u64>)
    requires
        buckets_ok(r, m),
        m.len() != 0,
    ensures
        r.len() > 0,
{
    reveal(buckets_ok);
}

/// The first bucket's floor is the lowest floor of any recorded value.
proof fn lemma_min_floor(r: Seq<(u64, u64)>, m: Multiset<u64>)
    requires
        buckets_ok(r, m),
        r.len() > 0,
    ensures
        is_min_floor(m, r[0].0),
{
    reveal(buckets_ok);
    assert forall|w: u64| m.count(w) > 0 implies r[0].0 <= #[trigger] bucket_floor(w) by {
        let j = choose|j: int| 0 <= j < r.len() && #[trigger] bucket_floor(w) == r[j].0;
        if j > 0 {
            assert(r[0].0 < r[j].0);
        }
    }
}

/// Every bucket value of a histogram whose recorded values lie in
/// [1200, 10800] lies in that range itself.
proof fn lemma_bucket_value_bounds(r: Seq<(u64, u64)>, m: Multiset<u64>, k: int)
    requires
        buckets_ok(r, m),
        0 <= k < r.len(),
        forall|w: u64| m.count(w) > 0 ==> 1200 <= w <= 10800,
    ensures
        1200 <= r[k].0 <= 10800,
{
    reveal(buckets_ok);
    let w = choose|w: u64| m.count(w) > 0 && r[k].0 == bucket_floor(w);
    assert(1200 <= w <= 10800);
    crate::hist::lemma_bucket_floor_precision(w);
}

/// One step of the bucket walk: the prefix sum through bucket `i` is the
/// rank of that bucket's floor, which never exceeds the total count.
proof fn lemma_rank_step(r: Seq<(u64, u64)>, m: Multiset<u64>, i: int)
    requires
        buckets_ok(r, m),
        0 <= i < r.len(),
    ensures
        sum_counts(r.take(i + 1)) == sum_counts(r.take(i)) + r[i].1,
        sum_counts(r.take(i + 1)) == rank_at_or_below(m, r[i].0),
        rank_at_or_below(m, r[i].0) <= m.len(),
        1 <= r[i].1,
{
    reveal(buckets_ok);
    assert(r.take(i + 1).drop_last() =~= r.take(i));
    assert(r.take(i + 1).last() == r[i]);
    lemma_filter_le_len(m, floor_le_pred(r[i].0));
}

/// The first bucket whose cumulative count reaches the threshold holds the
/// quantile value.
proof fn lemma_quantile_found(r: Seq<(u64, u64)>, m: Multiset<u64>, i: int, threshold: nat)
    requires
        buckets_ok(r, m),
        0 <= i < r.len(),
        rank_at_or_below(m, r[i].0) >= threshold,
        forall|j: int| 0 <= j < i ==> #[trigger] sum_counts(r.take(j + 1)) < threshold,
    ensures
        is_quantile_value(m, threshold, r[i].0),
{
    reveal(buckets_ok);
    assert forall|w: u64|
        m.count(w) > 0 && #[trigger] bucket_floor(w) < r[i].0 implies rank_at_or_below(m, bucket_floor(w))
        < threshold by {
        let j = choose|j: int| 0 <= j < r.len() && #[trigger] bucket_floor(w) == r[j].0;
        if j > i {
            assert(r[i].0 < r[j].0);
        }
        if j == i {
            assert(bucket_floor(w) == r[i].0);
        }
        assert(j < i);
        assert(sum_counts(r.take(j + 1)) < threshold);
        assert(sum_counts(r.take(j + 1)) == rank_at_or_below(m, r[j].0));
    }
}

/// The prefix sum over all buckets is the total recorded count.
proof fn lemma_total_rank(r: Seq<(u64, u64)>, m: Multiset<u64>)
    requires
        buckets_ok(r, m),
    ensures
        sum_counts(r) == m.len(),
{
    reveal(buckets_ok);
}

/// Walks the buckets accumulating counts and returns the floor of the first
/// bucket whose cumulative count reaches `threshold`.
fn select_quantile(
    buckets: &Vec<(u64, u64)>,
    threshold: u64,
    total: u64,
    Ghost(m): Ghost<Multiset<u64>>,
) -> (v: u64)
    requires
        buckets_ok(buckets@, m),
        m.len() == total,
        1 <= threshold <= total,
    ensures
        is_quantile_value(m, threshold as nat, v),
        exists|j: int| 0 <= j < buckets@.len() && v == (#[trigger] buckets@[j]).0,
{
    let mut i: usize = 0;
    let mut cum: u64 = 0;
    while i < buckets.len()
        invariant
            buckets_ok(buckets@, m),
            m.len() == total,
            1 <= threshold <= total,
            0 <= i <= buckets@.len(),
            cum as int == sum_counts(buckets@.take(i as int)),
            cum < threshold,
            forall|j: int| 0 <= j < i ==> #[trigger] sum_counts(buckets@.take(j + 1)) < threshold,
        decreases buckets@.len() - i,
    {
        let pair: (u64, u64) = buckets[i];
        let f: u64 = pair.0;
        let c: u64 = pair.1;
        proof {
            lemma_rank_step(buckets@, m, i as int);
        }
        let cum2: u64 = cum + c;
        if cum2 >= threshold {
            proof {
                lemma_quantile_found(buckets@, m, i as int, threshold as nat);
                assert(0 <= i < buckets@.len() && f == buckets@[i as int].0);
            }
            return f;
        }
        cum = cum2;
        i = i + 1;
    }
    proof {
        lemma_total_rank(buckets@, m);
        assert(buckets@.take(buckets@.len() as int) =~= buckets@);
        assert(false);
    }
    0
}

/// Projects one histogram to its entry for the given hour.
#[verifier::rlimit(60)]
fn hour_entry(h: &Hist, hour: u8) -> (e: StatsEntry)
    requires
        hist_sig(*h) == fixed_sig(),
        recorded_of(*h).len() <= u64::MAX,
        forall|w: u64| recorded_of(*h).count(w) > 0 ==> 1200 <= w <= 10800,
    ensures
        e.hour_of_day == hour,
        entry_ok(recorded_of(*h), e),
{
    let ghost m = recorded_of(*h);
    let total: u64 = hist_count(h);
    if total == 0 {
        StatsEntry { hour_of_day: hour, minimum_s: 0, median_s: 0, p95_s: 0 }
    } else {
        let buckets: Vec<(u64, u64)> = hist_buckets(h);
        proof {
            lemma_buckets_nonempty(buckets@, m);
        }
        let minimum: u64 = buckets[0].0;
        proof {
            lemma_min_floor(buckets@, m);
            lemma_bucket_value_bounds(buckets@, m, 0);
        }
        let t_med: u64 = total / 2 + total % 2;
        proof {
            assert(t_med as nat == quantile_threshold(m.len(), 1, 2));
        }
        let prod: u128 = 19u128 * total as u128;
        let t95_wide: u128 = (prod + 19) / 20;
        let t_p95: u64 = t95_wide as u64;
        proof {
            assert(t95_wide <= total as u128);
            assert(t_p95 as nat == quantile_threshold(m.len(), 19, 20));
        }
        let med: u64 = select_quantile(&buckets, t_med, total, Ghost(m));
        let p95: u64 = select_quantile(&buckets, t_p95, total, Ghost(m));
        proof {
            let jm = choose|j: int| 0 <= j < buckets@.len() && med == (#[trigger] buckets@[j]).0;
            lemma_bucket_value_bounds(buckets@, m, jm);
            let jp = choose|j: int| 0 <= j < buckets@.len() && p95 == (#[trigger] buckets@[j]).0;
            lemma_bucket_value_bounds(buckets@, m, jp);
        }
        StatsEntry { hour_of_day: hour, minimum_s: minimum, median_s: med, p95_s: p95 }
    }
}

impl DisplayStats {
    /// Assembles the output document: the counters as handed in, and for
    /// every hour 0 through 23, in that order, the projection of that hour's
    /// histogram.
    pub fn new(record_counts: RecordCounts, histograms: &DurationHistograms) -> (r: DisplayStats)
        requires
            histograms.wf(),
        ensures
            r.record_counts == record_counts,
            r.stats@.len() == 24,
            forall|h: int| 0 <= h < 24 ==> (#[trigger] r.stats@[h]).hour_of_day as int == h,
            forall|h: int| 0 <= h < 24 ==> entry_ok(histograms.contents(h), #[trigger] r.stats@[h]),
    {
        let mut stats: Vec<StatsEntry> = Vec::new();
        let mut hour: usize = 0;
        while hour < 24
            invariant
                histograms.wf(),
                hour <= 24,
                stats@.len() == hour,
                forall|h: int| 0 <= h < hour ==> (#[trigger] stats@[h]).hour_of_day as int == h,
                forall|h: int|
                    0 <= h < hour ==> entry_ok(histograms.contents(h), #[trigger] stats@[h]),
            decreases 24 - hour,
        {
            let hs: &Hist = histograms.slot(hour);
            proof {
                histograms.lemma_wf_facts(hour as int);
            }
            let e: StatsEntry = hour_entry(hs, hour as u8);
            stats.push(e);
            hour = hour + 1;
        }
        DisplayStats { record_counts, stats }
    }
}

} // verus!

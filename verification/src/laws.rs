use vstd::prelude::*;
use vstd::multiset::Multiset;
use crate::stats::DisplayStats;
use crate::stats::entry_ok;
use crate::stats::is_min_floor;
use crate::stats::is_quantile_value;
use crate::stats::quantile_threshold;
use crate::hist::bucket_floor;
use crate::hist::rank_at_or_below;
use crate::trip::TripView;
use crate::trip::hour_count;
use crate::trip::hour_durations;
use crate::trip::hour_pred;
use crate::trip::lemma_filter_count_push;
use crate::trip::matched_count;
use crate::trip::matched_pred;
use crate::trip::processable_all;
use crate::trip::skipped_count;
use crate::trip::skipped_pred;
use crate::trip::trip_duration;
use crate::trip::trip_hour;
use crate::trip::trip_matched;
use crate::trip::trip_processable;
use crate::trip::trip_recorded;
use crate::trip::trip_skipped;

verus! {

/// A filtered multiset is no larger than the multiset itself.
pub proof fn lemma_filter_le_len<V>(m: Multiset<V>, p: spec_fn(V) -> bool)
    ensures
        m.filter(p).len() <= m.len(),
{
    broadcast use vstd::multiset::group_multiset_axioms;

    assert(m =~= m.filter(p).add(m.filter(|v: V| !p(v))));
}

/// Filtering by a stronger predicate keeps no more elements.
pub proof fn lemma_filter_subset_len<V>(m: Multiset<V>, p: spec_fn(V) -> bool, q: spec_fn(
    V,
) -> bool)
    requires
        forall|v: V| #[trigger] p(v) ==> q(v),
    ensures
        m.filter(p).len() <= m.filter(q).len(),
{
    broadcast use vstd::multiset::group_multiset_axioms;

    assert(m.filter(q) =~= m.filter(p).add(m.filter(|v: V| q(v) && !p(v))));
}

/// Law: for every row sequence the counters are ordered,
/// `skipped <= matched <= read`.
pub proof fn lemma_counts_ordered(rows: Seq<TripView>)
    ensures
        skipped_count(rows) <= matched_count(rows),
        matched_count(rows) <= rows.len(),
{
    broadcast use vstd::seq_lib::group_to_multiset_ensures;

    lemma_filter_subset_len(rows.to_multiset(), skipped_pred(), matched_pred());
    lemma_filter_le_len(rows.to_multiset(), matched_pred());
}

/// An hour gathers at most one observation per row.
pub proof fn lemma_hour_durations_len(rows: Seq<TripView>, h: int)
    ensures
        hour_durations(rows, h).len() <= rows.len(),
    decreases rows.len(),
{
    broadcast use vstd::multiset::group_multiset_axioms;

    if rows.len() > 0 {
        lemma_hour_durations_len(rows.drop_last(), h);
    }
}

/// Sum of the observation counts of the hours below `k`.
pub open spec fn hours_total(rows: Seq<TripView>, k: int) -> nat
    decreases k,
{
    if k <= 0 {
        0
    } else {
        hours_total(rows, k - 1) + hour_count(rows, k - 1)
    }
}

proof fn lemma_hours_total_push(rows: Seq<TripView>, t: TripView, k: int)
    ensures
        hours_total(rows.push(t), k) == hours_total(rows, k) + (if trip_recorded(t) && 0
            <= trip_hour(t) < k {
            1nat
        } else {
            0nat
        }),
    decreases k,
{
    if k > 0 {
        lemma_hours_total_push(rows, t, k - 1);
        lemma_filter_count_push(rows, t, hour_pred(k - 1));
    }
}

proof fn lemma_hours_total_empty(k: int)
    ensures
        hours_total(Seq::<TripView>::empty(), k) == 0,
    decreases k,
{
    broadcast use vstd::seq_lib::group_to_multiset_ensures;

    if k > 0 {
        lemma_hours_total_empty(k - 1);
        lemma_filter_le_len(Seq::<TripView>::empty().to_multiset(), hour_pred(k - 1));
    }
}

/// Law: over processable rows the total count of histogram observations is
/// exactly `matched - skipped`.
pub proof fn lemma_total_observations(rows: Seq<TripView>)
    requires
        processable_all(rows),
    ensures
        skipped_count(rows) <= matched_count(rows),
        hours_total(rows, 24) == matched_count(rows) - skipped_count(rows),
    decreases rows.len(),
{
    lemma_counts_ordered(rows);
    if rows.len() == 0 {
        assert(rows =~= Seq::<TripView>::empty());
        lemma_hours_total_empty(24);
    } else {
        let prefix = rows.drop_last();
        let t = rows.last();
        assert(processable_all(prefix)) by {
            assert(forall|i: int| 0 <= i < prefix.len() ==> prefix[i] == rows[i]);
        }
        lemma_total_observations(prefix);
        assert(rows =~= prefix.push(t));
        lemma_filter_count_push(prefix, t, matched_pred());
        lemma_filter_count_push(prefix, t, skipped_pred());
        lemma_hours_total_push(prefix, t, 24);
        assert(trip_processable(t));
        assert(trip_matched(t) ==> trip_skipped(t) || trip_recorded(t));
        if trip_recorded(t) {
            assert(0 <= trip_hour(t) < 24);
        }
    }
}

pub open spec fn hour_dur_pred(h: int, d: u64) -> spec_fn(TripView) -> bool {
    |t: TripView| trip_recorded(t) && trip_hour(t) == h && trip_duration(t) == d
}

/// The per-hour duration multiset counts only rows recorded there with that
/// duration; a multiset filter count, so order-free.
proof fn lemma_hour_durations_count(rows: Seq<TripView>, h: int, d: u64)
    ensures
        hour_durations(rows, h).count(d) == rows.to_multiset().filter(hour_dur_pred(h, d)).len(),
    decreases rows.len(),
{
    broadcast use vstd::multiset::group_multiset_axioms;
    broadcast use vstd::seq_lib::group_to_multiset_ensures;

    if rows.len() == 0 {
        lemma_filter_le_len(rows.to_multiset(), hour_dur_pred(h, d));
    } else {
        let prefix = rows.drop_last();
        let t = rows.last();
        lemma_hour_durations_count(prefix, h, d);
        assert(rows =~= prefix.push(t));
        lemma_filter_count_push(prefix, t, hour_dur_pred(h, d));
    }
}

/// Law: shuffling the rows changes neither the counters nor any hour's
/// recorded durations.
pub proof fn lemma_order_independent(rows1: Seq<TripView>, rows2: Seq<TripView>)
    requires
        rows1.to_multiset() == rows2.to_multiset(),
    ensures
        rows1.len() == rows2.len(),
        matched_count(rows1) == matched_count(rows2),
        skipped_count(rows1) == skipped_count(rows2),
        forall|h: int| hour_durations(rows1, h) == hour_durations(rows2, h),
{
    broadcast use vstd::multiset::group_multiset_axioms;
    broadcast use vstd::seq_lib::group_to_multiset_ensures;

    assert(rows1.to_multiset().len() == rows1.len());
    assert(rows2.to_multiset().len() == rows2.len());
    assert forall|h: int| hour_durations(rows1, h) == hour_durations(rows2, h) by {
        assert forall|d: u64|
            hour_durations(rows1, h).count(d) == hour_durations(rows2, h).count(d) by {
            lemma_hour_durations_count(rows1, h, d);
            lemma_hour_durations_count(rows2, h, d);
        }
        assert(hour_durations(rows1, h) =~= hour_durations(rows2, h));
    }
}

/// What the assembled summary says of the rows it was computed from.
pub open spec fn summary_matches(rows: Seq<TripView>, out: DisplayStats) -> bool {
    &&& out.record_counts.read as nat == rows.len()
    &&& out.record_counts.matched as nat == matched_count(rows)
    &&& out.record_counts.skipped as nat == skipped_count(rows)
    &&& out.stats@.len() == 24
    &&& forall|h: int| 0 <= h < 24 ==> (#[trigger] out.stats@[h]).hour_of_day as int == h
    &&& forall|h: int| 0 <= h < 24 ==> entry_ok(hour_durations(rows, h), #[trigger] out.stats@[h])
}

proof fn lemma_min_floor_unique(m: Multiset<u64>, v1: u64, v2: u64)
    requires
        is_min_floor(m, v1),
        is_min_floor(m, v2),
    ensures
        v1 == v2,
{
    let w1 = choose|w: u64| m.count(w) > 0 && v1 == bucket_floor(w);
    let w2 = choose|w: u64| m.count(w) > 0 && v2 == bucket_floor(w);
    assert(v1 <= bucket_floor(w2));
    assert(v2 <= bucket_floor(w1));
}

proof fn lemma_quantile_unique(m: Multiset<u64>, threshold: nat, v1: u64, v2: u64)
    requires
        is_quantile_value(m, threshold, v1),
        is_quantile_value(m, threshold, v2),
    ensures
        v1 == v2,
{
    if v1 < v2 {
        let w1 = choose|w: u64| m.count(w) > 0 && v1 == bucket_floor(w);
        assert(rank_at_or_below(m, bucket_floor(w1)) < threshold);
    }
    if v2 < v1 {
        let w2 = choose|w: u64| m.count(w) > 0 && v2 == bucket_floor(w);
        assert(rank_at_or_below(m, bucket_floor(w2)) < threshold);
    }
}

/// Law: the summary is a function of the rows alone, so a second run over
/// the same input yields the identical document.
pub proof fn lemma_deterministic(rows: Seq<TripView>, a: DisplayStats, b: DisplayStats)
    requires
        summary_matches(rows, a),
        summary_matches(rows, b),
    ensures
        a.record_counts == b.record_counts,
        a.stats@ == b.stats@,
{
    assert forall|h: int| 0 <= h < 24 implies a.stats@[h] == b.stats@[h] by {
        let m = hour_durations(rows, h);
        if m.len() != 0 {
            lemma_min_floor_unique(m, a.stats@[h].minimum_s, b.stats@[h].minimum_s);
            lemma_quantile_unique(
                m,
                quantile_threshold(m.len(), 1, 2),
                a.stats@[h].median_s,
                b.stats@[h].median_s,
            );
            lemma_quantile_unique(
                m,
                quantile_threshold(m.len(), 19, 20),
                a.stats@[h].p95_s,
                b.stats@[h].p95_s,
            );
        }
    }
    assert(a.stats@ =~= b.stats@);
}

/// Law: summaries of row sequences that hold the same rows in any order
/// agree, entry for entry.
pub proof fn lemma_summary_order_independent(
    rows1: Seq<TripView>,
    rows2: Seq<TripView>,
    a: DisplayStats,
    b: DisplayStats,
)
    requires
        rows1.to_multiset() == rows2.to_multiset(),
        summary_matches(rows1, a),
        summary_matches(rows2, b),
    ensures
        a.record_counts == b.record_counts,
        a.stats@ == b.stats@,
{
    lemma_order_independent(rows1, rows2);
    assert(summary_matches(rows1, b)) by {
        assert forall|h: int|
            0 <= h < 24 implies entry_ok(hour_durations(rows1, h), #[trigger] b.stats@[h]) by {
            assert(hour_durations(rows1, h) == hour_durations(rows2, h));
        }
    }
    lemma_deterministic(rows1, a, b);
}

} // verus!

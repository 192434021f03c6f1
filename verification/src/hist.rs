use vstd::prelude::*;
use vstd::multiset::Multiset;
use crate::datetime::DateTime;
use crate::datetime::duration_of;
use crate::datetime::duration_seconds;

verus! {

/// A single bounded histogram of the outside crate, held behind an opaque
/// field; everything known about it is stated over `recorded_of` and
/// `hist_sig` by the trusted functions below.
#[verifier::external_body]
pub struct Hist {
    inner: hdrhistogram::Histogram<u64>,
}

/// The multiset of values recorded in a histogram so far.
pub uninterp spec fn recorded_of(h: Hist) -> Multiset<u64>;

/// The (lowest discernible value, highest trackable value, significant
/// figures) triple a histogram was created with.
pub uninterp spec fn hist_sig(h: Hist) -> (u64, u64, u64);

/// The configuration every histogram of this crate is created with.
pub open spec fn fixed_sig() -> (u64, u64, u64) {
    (1u64, 10800u64, 3u64)
}

/// Width of the bucket holding `v` under the fixed configuration: three
/// significant figures give 2048 sub-buckets, so values below 2048 sit in
/// unit-width buckets and each doubling beyond doubles the width. Values
/// past 16383 never enter a histogram of this crate.
pub open spec fn bucket_width(v: u64) -> u64 {
    if v < 2048 {
        1
    } else if v < 4096 {
        2
    } else if v < 8192 {
        4
    } else {
        8
    }
}

/// The lowest value the bucketing treats as equivalent to `v`: `v` rounded
/// down to a multiple of its bucket width.
pub open spec fn bucket_floor(v: u64) -> u64 {
    (v - (v as int % bucket_width(v) as int)) as u64
}

/// Law: the bucket representative of a value in the histogram range keeps
/// three significant figures -- it never exceeds the value and loses less
/// than a thousandth of it.
pub proof fn lemma_bucket_floor_precision(w: u64)
    requires
        1 <= w <= 10800,
    ensures
        bucket_floor(w) <= w,
        w - bucket_floor(w) < bucket_width(w),
        (w - bucket_floor(w)) as int <= w as int / 1000,
        w < 2048 ==> bucket_floor(w) == w,
        2048 <= w ==> 2048 <= bucket_floor(w),
{
}

pub open spec fn floor_eq_pred(f: u64) -> spec_fn(u64) -> bool {
    |w: u64| bucket_floor(w) == f
}

pub open spec fn floor_le_pred(f: u64) -> spec_fn(u64) -> bool {
    |w: u64| bucket_floor(w) <= f
}

/// Count of recorded values whose bucket floor is at most `f`.
pub open spec fn rank_at_or_below(m: Multiset<u64>, f: u64) -> nat {
    m.filter(floor_le_pred(f)).len()
}

pub open spec fn sum_counts(s: Seq<(u64, u64)>) -> int
    decreases s.len(),
{
    if s.len() == 0 {
        0
    } else {
        sum_counts(s.drop_last()) + s.last().1
    }
}

/// What `hist_buckets` returns: one entry per non-empty bucket, ascending by
/// bucket floor, carrying the bucket's count; prefix sums equal the rank of
/// the bucket floor; every entry is the `bucket_floor` of some recorded
/// value, and every recorded value has its floor among the entries.
#[verifier::opaque]
pub open spec fn buckets_ok(r: Seq<(u64, u64)>, m: Multiset<u64>) -> bool {
    &&& forall|i: int, j: int| 0 <= i < j < r.len() ==> r[i].0 < r[j].0
    &&& forall|i: int|
        0 <= i < r.len() ==> (#[trigger] r[i]).1 as nat == m.filter(floor_eq_pred(r[i].0)).len()
    &&& forall|i: int| 0 <= i < r.len() ==> 1 <= (#[trigger] r[i]).1
    &&& forall|i: int|
        0 <= i < r.len() ==> sum_counts(r.take(i + 1)) == rank_at_or_below(m, (#[trigger] r[i]).0)
    &&& forall|i: int|
        0 <= i < r.len() ==> exists|w: u64| m.count(w) > 0 && (#[trigger] r[i]).0 == bucket_floor(w)
    &&& forall|w: u64| m.count(w) > 0 ==> exists|i: int| 0 <= i < r.len() && #[trigger] bucket_floor(w) == r[i].0
    &&& sum_counts(r) == m.len()
    &&& r.len() == 0 <==> m.len() == 0
}

/// Relies on hdrhistogram::Histogram::new_with_bounds: the arguments
/// (low 1, high 10800, 3 significant figures) satisfy every creation check of
/// the crate, so construction succeeds, and a new histogram has recorded
/// nothing.
#[verifier::external_body]
pub(crate) fn hist_new() -> (h: Hist)
    ensures
        hist_sig(h) == fixed_sig(),
        recorded_of(h) == Multiset::<u64>::empty(),
{
    Hist { inner: hdrhistogram::Histogram::new_with_bounds(1, 10800, 3).unwrap() }
}

/// Relies on hdrhistogram::Histogram::record: a value within the trackable
/// range of the configuration is always accepted (resize is never needed),
/// and recording adds exactly that value to the histogram's contents.
#[verifier::external_body]
pub(crate) fn hist_record(h: &mut Hist, v: u64)
    requires
        hist_sig(*old(h)) == fixed_sig(),
        1 <= v <= 10800,
        recorded_of(*old(h)).len() < u64::MAX,
    ensures
        hist_sig(*final(h)) == fixed_sig(),
        recorded_of(*final(h)) == recorded_of(*old(h)).insert(v),
{
    h.inner.record(v).unwrap()
}

/// Relies on hdrhistogram::Histogram::len: the total count of recorded
/// values (no recording here ever saturates it, see `hist_record`).
#[verifier::external_body]
pub(crate) fn hist_count(h: &Hist) -> (n: u64)
    requires
        hist_sig(*h) == fixed_sig(),
        recorded_of(*h).len() <= u64::MAX,
    ensures
        n as nat == recorded_of(*h).len(),
{
    h.inner.len()
}

/// Relies on hdrhistogram::Histogram::iter_recorded and
/// hdrhistogram::Histogram::lowest_equivalent: the iterator visits every
/// non-empty bucket once, in ascending order, yielding the bucket's count;
/// `lowest_equivalent` reduces the yielded value to the bucket's floor,
/// which for this configuration is `bucket_floor` (2048 sub-buckets: exact
/// below 2048, power-of-two widths beyond).
#[verifier::external_body]
pub(crate) fn hist_buckets(h: &Hist) -> (r: Vec<(u64, u64)>)
    requires
        hist_sig(*h) == fixed_sig(),
        recorded_of(*h).len() <= u64::MAX,
    ensures
        buckets_ok(r@, recorded_of(*h)),
{
    h.inner.iter_recorded().map(
        |x| (h.inner.lowest_equivalent(x.value_iterated_to()), x.count_at_value()),
    ).collect()
}

/// Why a duration was not recorded, carrying the offending value in seconds.
#[derive(Clone, Copy, Debug, PartialEq, Eq, Structural)]
pub enum DurationError {
    TooShort(u64),
    TooLong(u64),
}

/// Twenty-four bounded histograms of trip durations in seconds, one per
/// pickup hour of day, each covering 1 through 10800 with three significant
/// figures.
pub struct DurationHistograms {
    hists: Vec<Hist>,
}

impl DurationHistograms {
    /// The durations recorded for the given pickup hour.
    pub closed spec fn contents(self, hour: int) -> Multiset<u64> {
        recorded_of(self.hists@[hour])
    }

    pub closed spec fn wf(self) -> bool {
        &&& self.hists@.len() == 24
        &&& forall|h: int| 0 <= h < 24 ==> hist_sig(#[trigger] self.hists@[h]) == fixed_sig()
        &&& forall|h: int, w: u64|
            0 <= h < 24 && #[trigger] self.contents(h).count(w) > 0 ==> 1200 <= w <= 10800
        &&& forall|h: int| 0 <= h < 24 ==> (#[trigger] self.contents(h)).len() <= u64::MAX
    }

    /// What well-formedness gives of one hour's contents: a bounded count
    /// and only durations in the accepted range.
    pub proof fn lemma_wf_facts(self, h: int)
        requires
            self.wf(),
            0 <= h < 24,
        ensures
            self.contents(h).len() <= u64::MAX,
            forall|w: u64| self.contents(h).count(w) > 0 ==> 1200 <= w <= 10800,
    {
    }

    /// Read access to one hour's histogram.
    pub(crate) fn slot(&self, hour: usize) -> (h: &Hist)
        requires
            self.wf(),
            hour < 24,
        ensures
            recorded_of(*h) == self.contents(hour as int),
            hist_sig(*h) == fixed_sig(),
    {
        &self.hists[hour]
    }

    pub fn new() -> (r: Self)
        ensures
            r.wf(),
            forall|h: int| 0 <= h < 24 ==> r.contents(h) == Multiset::<u64>::empty(),
    {
        let mut hists: Vec<Hist> = Vec::new();
        let mut i: usize = 0;
        while i < 24
            invariant
                i <= 24,
                hists@.len() == i,
                forall|h: int| 0 <= h < i ==> hist_sig(#[trigger] hists@[h]) == fixed_sig(),
                forall|h: int|
                    0 <= h < i ==> recorded_of(#[trigger] hists@[h]) == Multiset::<u64>::empty(),
            decreases 24 - i,
        {
            hists.push(hist_new());
            i = i + 1;
        }
        DurationHistograms { hists }
    }

    /// Computes the trip duration and, when it lies in the accepted range
    /// [1200, 10800] seconds, records it under the pickup hour; a too-short
    /// or too-long duration is reported and nothing changes.
    pub fn record_duration(&mut self, pickup: &DateTime, dropoff: &DateTime) -> (res: Result<
        (),
        DurationError,
    >)
        requires
            old(self).wf(),
            pickup.valid(),
            dropoff.valid(),
            old(self).contents(pickup.hour as int).len() < u64::MAX,
        ensures
            final(self).wf(),
            ({
                let d = duration_of(*pickup, *dropoff);
                if d < 1200 {
                    res == Err::<(), DurationError>(DurationError::TooShort(d)) && *final(self)
                        == *old(self)
                } else if d > 10800 {
                    res == Err::<(), DurationError>(DurationError::TooLong(d)) && *final(self)
                        == *old(self)
                } else {
                    res == Ok::<(), DurationError>(()) && final(self).contents(pickup.hour as int)
                        == old(self).contents(pickup.hour as int).insert(d) && (forall|h: int|
                        0 <= h < 24 && h != pickup.hour as int ==> final(self).contents(h) == old(
                            self,
                        ).contents(h))
                }
            }),
    {
        let d: u64 = duration_seconds(pickup, dropoff);
        if d < 1200 {
            Err(DurationError::TooShort(d))
        } else if d > 10800 {
            Err(DurationError::TooLong(d))
        } else {
            let hour: usize = pickup.hour as usize;
            let slot: &mut Hist = &mut self.hists[hour];
            hist_record(slot, d);
            proof {
                broadcast use vstd::multiset::group_multiset_axioms;

                let h0 = pickup.hour as int;
                assert(self.contents(h0) == old(self).contents(h0).insert(d));
                assert(old(self).contents(h0).insert(d).len() == old(self).contents(h0).len() + 1);
                assert forall|h: int| 0 <= h < 24 implies (#[trigger] self.contents(h)).len()
                    <= u64::MAX by {
                    if h != h0 {
                        assert(self.contents(h) == old(self).contents(h));
                    }
                }
                assert forall|h: int, w: u64|
                    0 <= h < 24 && #[trigger] self.contents(h).count(w) > 0 implies 1200 <= w
                    <= 10800 by {
                    if h == h0 {
                        if w != d {
                            assert(old(self).contents(h0).count(w) > 0);
                        }
                    } else {
                        assert(self.contents(h) == old(self).contents(h));
                    }
                }
            }
            Ok(())
        }
    }
}

} // verus!

//! A histogram with a fixed number of equally wide buckets from `min` on and one more
//! bucket for every sample beyond them. The width of a bucket is the range divided by
//! the number of buckets, rounded down.

use vstd::prelude::*;
use crate::text::{decimal, push_digits};

verus! {

/// The number of rows of a rendered chart.
pub const NUM_LEVELS: u64 = 10;

/// Why a histogram could not be made.
#[derive(Debug, Clone, Copy, PartialEq, Eq, Structural)]
pub enum HistogramError {
    /// The upper bound is not above the lower bound.
    InvalidRange,
}

/// A histogram of `u64` samples.
#[derive(Debug)]
pub struct Histogram {
    buckets: Vec<u64>,
    sample_count: u64,
    min: u64,
    max: u64,
    bucket_size: u64,
}

/// What a histogram holds.
pub struct HistogramView {
    /// The lower bound of the range, the smallest sample that may be added.
    pub min: int,
    /// The upper bound of the range; samples from here on fall in the last bucket.
    pub max: int,
    /// The width of a bucket.
    pub bucket_size: int,
    /// The count of each bucket; the last one is the overflow bucket.
    pub counts: Seq<u64>,
    /// The number of samples added so far.
    pub sample_count: int,
}

/// The sum of all counts.
pub open spec fn total(counts: Seq<u64>) -> int
    decreases counts.len(),
{
    if counts.len() == 0 {
        0
    } else {
        total(counts.drop_last()) + counts.last()
    }
}

/// The smallest count, 0 for no counts.
pub open spec fn lowest(counts: Seq<u64>) -> int
    decreases counts.len(),
{
    if counts.len() == 0 {
        0
    } else if counts.len() == 1 {
        counts[0] as int
    } else {
        let rest = lowest(counts.drop_last());
        if counts.last() < rest {
            counts.last() as int
        } else {
            rest
        }
    }
}

/// The largest count, 0 for no counts.
pub open spec fn highest(counts: Seq<u64>) -> int
    decreases counts.len(),
{
    if counts.len() == 0 {
        0
    } else if counts.len() == 1 {
        counts[0] as int
    } else {
        let rest = highest(counts.drop_last());
        if counts.last() > rest {
            counts.last() as int
        } else {
            rest
        }
    }
}

/// The width of each of `bucket_count` buckets over `[min, max)`: the range divided by
/// the number of buckets, rounded down; 0 where there is no bucket.
pub open spec fn bucket_width(min: int, max: int, bucket_count: int) -> int {
    if bucket_count > 0 {
        (max - min) / bucket_count
    } else {
        0
    }
}

/// The bucket of `sample` among `bucket_count` buckets of the width `bucket_width`: the
/// whole part of `(sample - min) / width`, and `bucket_count`, the overflow bucket, where
/// that is larger.
///
/// Where the range is narrower than the number of buckets, the width rounded down is 0
/// and nothing can be divided by it. The bucket is then found with the width not rounded:
/// the whole part of `(sample - min) * bucket_count / (max - min)`, and the overflow
/// bucket where that is larger. So every sample has one bucket for every range.
pub open spec fn bucket_index(min: int, max: int, bucket_count: int, sample: int) -> int
    recommends
        min < max,
        min <= sample,
        0 <= bucket_count,
{
    let width = bucket_width(min, max, bucket_count);
    let whole = if width >= 1 {
        (sample - min) / width
    } else {
        ((sample - min) * bucket_count) / (max - min)
    };
    if whole > bucket_count {
        bucket_count
    } else {
        whole
    }
}

/// The height of a column in a chart of `NUM_LEVELS` levels: `10 * (count - lo) / (hi - lo)`
/// rounded to the nearest whole number, a half rounded up.
pub open spec fn column_height(count: int, lo: int, hi: int) -> int
    recommends
        lo <= count <= hi,
        lo < hi,
{
    (2 * NUM_LEVELS * (count - lo) + (hi - lo)) / (2 * (hi - lo))
}

/// Whether the chart is filled at column `i` of the row for `level`. No cell is filled
/// where all counts are equal.
pub open spec fn cell_filled(counts: Seq<u64>, i: int, level: int) -> bool
    recommends
        0 <= i < counts.len(),
{
    lowest(counts) < highest(counts) && column_height(
        counts[i] as int,
        lowest(counts),
        highest(counts),
    ) >= level
}

/// The row of the chart for `level`: one character for each bucket.
pub open spec fn chart_row(counts: Seq<u64>, level: int) -> Seq<char> {
    Seq::new(
        counts.len(),
        |i: int|
            if cell_filled(counts, i, level) {
                '#'
            } else {
                ' '
            },
    )
}

/// The rows for the levels below `levels`, the highest first, with a line break between
/// two rows.
pub open spec fn chart_rows(counts: Seq<u64>, levels: nat) -> Seq<char>
    decreases levels,
{
    if levels == 0 {
        Seq::empty()
    } else if levels == 1 {
        chart_row(counts, 0)
    } else {
        chart_row(counts, levels - 1) + seq!['\n'] + chart_rows(counts, (levels - 1) as nat)
    }
}

/// What follows the row for `level` in a chart: nothing after the lowest row, else a
/// line break and the rows below.
pub open spec fn rows_below(counts: Seq<u64>, level: nat) -> Seq<char> {
    if level == 0 {
        Seq::empty()
    } else {
        seq!['\n'] + chart_rows(counts, level)
    }
}

impl HistogramView {
    /// The histogram of `bucket_count` buckets over `[min, max)` and an overflow bucket,
    /// before any sample.
    pub open spec fn empty(min: int, max: int, bucket_count: nat) -> HistogramView {
        HistogramView {
            min,
            max,
            bucket_size: bucket_width(min, max, bucket_count as int),
            counts: Seq::new(bucket_count + 1, |i: int| 0u64),
            sample_count: 0,
        }
    }

    /// The number of buckets below the overflow bucket.
    pub open spec fn bucket_count(self) -> int {
        self.counts.len() - 1
    }

    /// The range is not empty, there is an overflow bucket, the width of a bucket is
    /// the range divided by the number of buckets, rounded down, and the counts add up
    /// to the number of samples.
    pub open spec fn valid(self) -> bool {
        &&& self.min < self.max
        &&& self.counts.len() >= 1
        &&& self.bucket_size == bucket_width(self.min, self.max, self.bucket_count())
        &&& total(self.counts) == self.sample_count
    }

    /// The bucket that `sample` falls in.
    pub open spec fn bucket_of(self, sample: int) -> int {
        bucket_index(self.min, self.max, self.bucket_count(), sample)
    }

    /// The histogram after one more sample.
    pub open spec fn record(self, sample: int) -> HistogramView {
        let i = self.bucket_of(sample);
        HistogramView {
            min: self.min,
            max: self.max,
            bucket_size: self.bucket_size,
            counts: self.counts.update(i, (self.counts[i] + 1) as u64),
            sample_count: self.sample_count + 1,
        }
    }

    /// The histogram after the samples of `samples`, added in order.
    pub open spec fn record_all(self, samples: Seq<u64>) -> HistogramView
        decreases samples.len(),
    {
        if samples.len() == 0 {
            self
        } else {
            self.record_all(samples.drop_last()).record(samples.last() as int)
        }
    }

    /// The chart: a line with the number of samples, then `NUM_LEVELS` rows, then an
    /// empty line.
    pub open spec fn chart(self) -> Seq<char> {
        decimal(self.sample_count) + " samples:\n"@ + chart_rows(self.counts, NUM_LEVELS as nat)
            + "\n\n"@
    }
}

/// The width of a bucket is not negative, and as many widths as there are buckets fit
/// in the range.
pub proof fn lemma_bucket_width(min: int, max: int, bucket_count: int)
    requires
        min < max,
        0 <= bucket_count,
    ensures
        0 <= bucket_width(min, max, bucket_count),
        bucket_width(min, max, bucket_count) * bucket_count <= max - min,
        bucket_width(min, max, bucket_count) >= 1 <==> 0 < bucket_count <= max - min,
{
    let d = max - min;
    let n = bucket_count;
    if n > 0 {
        let w = d / n;
        assert(0 <= w && w * n <= d && (w >= 1 <==> n <= d)) by (nonlinear_arith)
            requires
                d > 0,
                n > 0,
                w == d / n,
        ;
    } else {
        assert(0 * n == 0) by (nonlinear_arith);
    }
}

/// A bucket index lies between 0 and the overflow bucket.
pub proof fn lemma_bucket_index_bounds(min: int, max: int, bucket_count: int, sample: int)
    requires
        min < max,
        min <= sample,
        0 <= bucket_count,
    ensures
        0 <= bucket_index(min, max, bucket_count, sample) <= bucket_count,
{
    let width = bucket_width(min, max, bucket_count);
    let a = sample - min;
    if width >= 1 {
        assert(a / width >= 0) by (nonlinear_arith)
            requires
                a >= 0,
                width >= 1,
        ;
    } else {
        let num = a * bucket_count;
        let d = max - min;
        assert(num / d >= 0) by (nonlinear_arith)
            requires
                a >= 0,
                bucket_count >= 0,
                num == a * bucket_count,
                d > 0,
        ;
    }
}

/// A sample equal to the lower bound falls in bucket 0.
pub proof fn lemma_min_falls_in_first_bucket(min: int, max: int, bucket_count: int)
    requires
        min < max,
        0 <= bucket_count,
    ensures
        bucket_index(min, max, bucket_count, min) == 0,
{
    let width = bucket_width(min, max, bucket_count);
    if width >= 1 {
        assert(0int / width == 0) by (nonlinear_arith)
            requires
                width >= 1,
        ;
    } else {
        assert((min - min) * bucket_count == 0) by (nonlinear_arith);
        assert(0int / (max - min) == 0) by (nonlinear_arith)
            requires
                max - min > 0,
        ;
    }
}

/// A sample at or above the upper bound falls in the last bucket.
pub proof fn lemma_max_falls_in_last_bucket(min: int, max: int, bucket_count: int, sample: int)
    requires
        min < max,
        max <= sample,
        0 <= bucket_count,
    ensures
        bucket_index(min, max, bucket_count, sample) == bucket_count,
{
    let width = bucket_width(min, max, bucket_count);
    let a = sample - min;
    let d = max - min;
    lemma_bucket_width(min, max, bucket_count);
    if width >= 1 {
        assert(a / width >= bucket_count) by (nonlinear_arith)
            requires
                width >= 1,
                width * bucket_count <= d,
                a >= d,
        ;
    } else {
        let num = a * bucket_count;
        assert(num / d >= bucket_count) by (nonlinear_arith)
            requires
                num == a * bucket_count,
                d > 0,
                a >= d,
                bucket_count >= 0,
        ;
    }
}

/// With a width of at least 1, the buckets lie side by side from `min` on: a sample
/// below `min + bucket_count * width` falls in the bucket whose bounds hold it,
/// `min + i * width <= sample < min + (i + 1) * width`, and every sample from there on
/// falls in the overflow bucket.
pub proof fn lemma_bucket_holds_sample(min: int, max: int, bucket_count: int, sample: int)
    requires
        min < max,
        min <= sample,
        0 <= bucket_count,
        bucket_width(min, max, bucket_count) >= 1,
    ensures
        ({
            let width = bucket_width(min, max, bucket_count);
            let i = bucket_index(min, max, bucket_count, sample);
            &&& sample >= min + bucket_count * width ==> i == bucket_count
            &&& sample < min + bucket_count * width ==> {
                &&& 0 <= i < bucket_count
                &&& min + i * width <= sample < min + (i + 1) * width
            }
        }),
{
    let w = bucket_width(min, max, bucket_count);
    let n = bucket_count;
    let a = sample - min;
    let q = a / w;
    assert(q * w <= a < (q + 1) * w && q >= 0) by (nonlinear_arith)
        requires
            q == a / w,
            w >= 1,
            a >= 0,
    ;
    if a >= n * w {
        assert(q >= n) by (nonlinear_arith)
            requires
                a < (q + 1) * w,
                a >= n * w,
                w >= 1,
        ;
    } else {
        assert(q < n) by (nonlinear_arith)
            requires
                q * w <= a,
                a < n * w,
                w >= 1,
        ;
    }
}

/// Where the width rounded down is 0, a sample inside the range falls in the bucket
/// whose bounds hold it when the width is not rounded:
/// `i * (max - min) <= (sample - min) * bucket_count < (i + 1) * (max - min)`.
pub proof fn lemma_narrow_bucket_holds_sample(min: int, max: int, bucket_count: int, sample: int)
    requires
        min < max,
        min <= sample < max,
        0 < bucket_count,
        bucket_width(min, max, bucket_count) == 0,
    ensures
        ({
            let i = bucket_index(min, max, bucket_count, sample);
            &&& 0 <= i < bucket_count
            &&& i * (max - min) <= (sample - min) * bucket_count
            &&& (sample - min) * bucket_count < (i + 1) * (max - min)
        }),
{
    let num = (sample - min) * bucket_count;
    let d = max - min;
    let q = num / d;
    assert(0 <= num < d * bucket_count) by (nonlinear_arith)
        requires
            num == (sample - min) * bucket_count,
            0 <= sample - min < d,
            bucket_count > 0,
    ;
    assert(q * d <= num < (q + 1) * d && 0 <= q < bucket_count) by (nonlinear_arith)
        requires
            q == num / d,
            d > 0,
            0 <= num < d * bucket_count,
    ;
}

/// A larger sample never falls in an earlier bucket.
pub proof fn lemma_bucket_index_monotone(
    min: int,
    max: int,
    bucket_count: int,
    sample: int,
    later: int,
)
    requires
        min < max,
        min <= sample <= later,
        0 <= bucket_count,
    ensures
        bucket_index(min, max, bucket_count, sample) <= bucket_index(
            min,
            max,
            bucket_count,
            later,
        ),
{
    let width = bucket_width(min, max, bucket_count);
    let a = sample - min;
    let b = later - min;
    if width >= 1 {
        assert(a / width <= b / width) by (nonlinear_arith)
            requires
                0 <= a <= b,
                width >= 1,
        ;
    } else {
        let d = max - min;
        let x = a * bucket_count;
        let y = b * bucket_count;
        assert(x <= y) by (nonlinear_arith)
            requires
                0 <= a <= b,
                bucket_count >= 0,
                x == a * bucket_count,
                y == b * bucket_count,
        ;
        assert(x / d <= y / d) by (nonlinear_arith)
            requires
                x <= y,
                d > 0,
        ;
    }
}

/// Counting one more in one bucket raises the sum of the counts by one.
pub proof fn lemma_total_update(counts: Seq<u64>, i: int)
    requires
        0 <= i < counts.len(),
        counts[i] < u64::MAX,
    ensures
        total(counts.update(i, (counts[i] + 1) as u64)) == total(counts) + 1,
    decreases counts.len(),
{
    let next = counts.update(i, (counts[i] + 1) as u64);
    if i == counts.len() - 1 {
        assert(next.drop_last() =~= counts.drop_last());
    } else {
        lemma_total_update(counts.drop_last(), i);
        assert(next.drop_last() =~= counts.drop_last().update(i, (counts[i] + 1) as u64));
    }
}

/// No count is above the sum of all counts.
pub proof fn lemma_count_at_most_total(counts: Seq<u64>, i: int)
    requires
        0 <= i < counts.len(),
    ensures
        counts[i] <= total(counts),
        0 <= total(counts),
    decreases counts.len(),
{
    lemma_total_nonnegative(counts.drop_last());
    if i < counts.len() - 1 {
        lemma_count_at_most_total(counts.drop_last(), i);
    }
}

/// A sum of counts is not negative.
pub proof fn lemma_total_nonnegative(counts: Seq<u64>)
    ensures
        0 <= total(counts),
    decreases counts.len(),
{
    if counts.len() > 0 {
        lemma_total_nonnegative(counts.drop_last());
    }
}

/// The lowest count is one of the counts and no count is below it; likewise the highest.
pub proof fn lemma_lowest_highest(counts: Seq<u64>)
    requires
        counts.len() >= 1,
    ensures
        exists|i: int| 0 <= i < counts.len() && counts[i] == lowest(counts),
        exists|i: int| 0 <= i < counts.len() && counts[i] == highest(counts),
        forall|i: int| 0 <= i < counts.len() ==> lowest(counts) <= #[trigger] counts[i] <= highest(counts),
    decreases counts.len(),
{
    if counts.len() == 1 {
        assert(counts[0] == lowest(counts));
        assert(counts[0] == highest(counts));
    } else {
        let rest = counts.drop_last();
        lemma_lowest_highest(rest);
        let a = choose|i: int| 0 <= i < rest.len() && rest[i] == lowest(rest);
        let b = choose|i: int| 0 <= i < rest.len() && rest[i] == highest(rest);
        let last = counts.len() - 1;
        assert(counts[a] == rest[a]);
        assert(counts[b] == rest[b]);
        assert(counts[last] == counts.last());
        assert forall|i: int| 0 <= i < counts.len() implies lowest(counts) <= #[trigger] counts[i]
            <= highest(counts) by {
            if i < last {
                assert(counts[i] == rest[i]);
            }
        }
    }
}

/// A histogram that went through `record` is still valid, as long as the count fits.
pub proof fn lemma_record_valid(h: HistogramView, sample: int)
    requires
        h.valid(),
        h.min <= sample,
        h.sample_count < u64::MAX,
    ensures
        h.record(sample).valid(),
        h.record(sample).counts.len() == h.counts.len(),
{
    lemma_bucket_index_bounds(h.min, h.max, h.bucket_count(), sample);
    let i = h.bucket_of(sample);
    lemma_count_at_most_total(h.counts, i);
    lemma_total_update(h.counts, i);
}

/// A sample at or above the upper bound is counted in the last bucket, and nowhere else.
pub proof fn lemma_record_at_max(h: HistogramView, sample: int)
    requires
        h.valid(),
        h.max <= sample,
        h.sample_count < u64::MAX,
    ensures
        h.record(sample).counts.len() == h.counts.len(),
        h.record(sample).counts[h.bucket_count()] == h.counts[h.bucket_count()] + 1,
        forall|i: int|
            0 <= i < h.bucket_count() ==> (#[trigger] h.record(sample).counts[i]) == h.counts[i],
        h.record(sample).sample_count == h.sample_count + 1,
{
    lemma_max_falls_in_last_bucket(h.min, h.max, h.bucket_count(), sample);
    lemma_count_at_most_total(h.counts, h.bucket_count());
}

/// A sample equal to the lower bound is counted in bucket 0, and nowhere else.
pub proof fn lemma_record_at_min(h: HistogramView)
    requires
        h.valid(),
        h.sample_count < u64::MAX,
    ensures
        h.record(h.min).counts.len() == h.counts.len(),
        h.record(h.min).counts[0] == h.counts[0] + 1,
        forall|i: int|
            1 <= i < h.counts.len() ==> (#[trigger] h.record(h.min).counts[i]) == h.counts[i],
        h.record(h.min).sample_count == h.sample_count + 1,
{
    lemma_min_falls_in_first_bucket(h.min, h.max, h.bucket_count());
    lemma_count_at_most_total(h.counts, 0);
}

/// An empty histogram is valid.
pub proof fn lemma_empty_valid(min: int, max: int, bucket_count: nat)
    requires
        min < max,
    ensures
        HistogramView::empty(min, max, bucket_count).valid(),
{
    lemma_total_zeros(bucket_count + 1);
}

/// Counts that are all 0 add up to 0.
pub proof fn lemma_total_zeros(n: nat)
    ensures
        total(Seq::new(n, |i: int| 0u64)) == 0,
    decreases n,
{
    if n > 0 {
        lemma_total_zeros((n - 1) as nat);
        assert(Seq::new(n, |i: int| 0u64).drop_last() =~= Seq::new((n - 1) as nat, |i: int| 0u64));
    }
}

/// After the samples of `samples`, a histogram counts `samples.len()` more samples,
/// and its counts still add up to that number.
pub proof fn lemma_record_all_counts(h: HistogramView, samples: Seq<u64>)
    requires
        h.valid(),
        forall|i: int| 0 <= i < samples.len() ==> h.min <= #[trigger] samples[i],
        h.sample_count + samples.len() <= u64::MAX,
    ensures
        h.record_all(samples).valid(),
        h.record_all(samples).min == h.min,
        h.record_all(samples).max == h.max,
        h.record_all(samples).counts.len() == h.counts.len(),
        h.record_all(samples).sample_count == h.sample_count + samples.len(),
        total(h.record_all(samples).counts) == h.sample_count + samples.len(),
    decreases samples.len(),
{
    if samples.len() > 0 {
        let front = samples.drop_last();
        assert forall|i: int| 0 <= i < front.len() implies h.min <= #[trigger] front[i] by {
            assert(front[i] == samples[i]);
        }
        lemma_record_all_counts(h, front);
        assert(h.min <= samples[samples.len() - 1]);
        lemma_record_valid(h.record_all(front), samples.last() as int);
    }
}

/// A histogram that was empty counts, after the samples of `samples`, as many samples
/// as `samples` has, and its buckets add up to that number.
pub proof fn lemma_samples_counted(min: int, max: int, bucket_count: nat, samples: Seq<u64>)
    requires
        min < max,
        forall|i: int| 0 <= i < samples.len() ==> min <= #[trigger] samples[i],
        samples.len() <= u64::MAX,
    ensures
        HistogramView::empty(min, max, bucket_count).record_all(samples).sample_count
            == samples.len(),
        total(HistogramView::empty(min, max, bucket_count).record_all(samples).counts)
            == samples.len(),
        HistogramView::empty(min, max, bucket_count).record_all(samples).counts.len()
            == bucket_count + 1,
{
    lemma_empty_valid(min, max, bucket_count);
    lemma_record_all_counts(HistogramView::empty(min, max, bucket_count), samples);
}

impl View for Histogram {
    type V = HistogramView;

    closed spec fn view(&self) -> HistogramView {
        HistogramView {
            min: self.min as int,
            max: self.max as int,
            bucket_size: self.bucket_size as int,
            counts: self.buckets@,
            sample_count: self.sample_count as int,
        }
    }
}

impl Histogram {
    /// What every histogram made by `new` and filled by `add_sample` satisfies.
    pub open spec fn well_formed(&self) -> bool {
        self@.valid()
    }

    /// An empty histogram of `bucket_count` buckets from `min` on, each as wide as the
    /// range divided by `bucket_count`, rounded down, and an overflow bucket. The range
    /// must not be empty.
    pub fn new(min: u64, max: u64, bucket_count: usize) -> (r: Result<Histogram, HistogramError>)
        requires
            bucket_count < usize::MAX,
        ensures
            r is Err <==> max <= min,
            r matches Err(e) ==> e == HistogramError::InvalidRange,
            r matches Ok(h) ==> h.well_formed() && h@ == HistogramView::empty(
                min as int,
                max as int,
                bucket_count as nat,
            ),
    {
        if max <= min {
            return Err(HistogramError::InvalidRange);
        }
        let mut buckets: Vec<u64> = Vec::new();
        let mut i: usize = 0;
        while i <= bucket_count
            invariant
                i <= bucket_count + 1,
                bucket_count < usize::MAX,
                buckets@ == Seq::new(i as nat, |k: int| 0u64),
                total(buckets@) == 0,
            decreases bucket_count + 1 - i,
        {
            let ghost before = buckets@;
            buckets.push(0);
            i = i + 1;
            assert(buckets@.drop_last() =~= before);
            assert(buckets@ =~= Seq::new(i as nat, |k: int| 0u64));
        }
        let bucket_size: u64 = if bucket_count > 0 {
            (max - min) / (bucket_count as u64)
        } else {
            0
        };
        let h = Histogram { buckets, sample_count: 0, min, max, bucket_size };
        assert(h@.counts =~= HistogramView::empty(min as int, max as int, bucket_count as nat).counts);
        Ok(h)
    }

    /// The lower bound of the range.
    pub fn min(&self) -> (r: u64)
        ensures
            r == self@.min,
    {
        self.min
    }

    /// The upper bound of the range.
    pub fn max(&self) -> (r: u64)
        ensures
            r == self@.max,
    {
        self.max
    }

    /// The width of a bucket: the range divided by the number of buckets, rounded down.
    pub fn bucket_size(&self) -> (r: u64)
        ensures
            r == self@.bucket_size,
    {
        self.bucket_size
    }

    /// The number of samples added so far.
    pub fn sample_count(&self) -> (r: u64)
        ensures
            r == self@.sample_count,
    {
        self.sample_count
    }

    /// The count of each bucket; the last one is the overflow bucket.
    pub fn buckets(&self) -> (r: &Vec<u64>)
        ensures
            r@ == self@.counts,
    {
        &self.buckets
    }

    /// The bucket that `sample` falls in.
    pub fn bucket_of(&self, sample: u64) -> (r: usize)
        requires
            self.well_formed(),
            self@.min <= sample,
        ensures
            r == self@.bucket_of(sample as int),
            r < self@.counts.len(),
    {
        let bucket_count: usize = self.buckets.len() - 1;
        proof {
            lemma_bucket_index_bounds(
                self@.min,
                self@.max,
                self@.bucket_count(),
                sample as int,
            );
        }
        if self.bucket_size >= 1 {
            let whole: u64 = (sample - self.min) / self.bucket_size;
            if whole > bucket_count as u64 {
                bucket_count
            } else {
                whole as usize
            }
        } else {
            let offset: u128 = (sample - self.min) as u128;
            let range: u128 = (self.max - self.min) as u128;
            assert(offset * (bucket_count as u128) <= u128::MAX) by (nonlinear_arith)
                requires
                    offset <= u64::MAX,
                    bucket_count <= u64::MAX,
            ;
            let whole: u128 = (offset * (bucket_count as u128)) / range;
            if whole > bucket_count as u128 {
                bucket_count
            } else {
                whole as usize
            }
        }
    }

    /// Counts `sample` in its bucket. The sample must not be below the lower bound.
    pub fn add_sample(&mut self, sample: u64)
        requires
            old(self).well_formed(),
            old(self)@.min <= sample,
            old(self)@.sample_count < u64::MAX,
        ensures
            final(self).well_formed(),
            final(self)@ == old(self)@.record(sample as int),
    {
        let index = self.bucket_of(sample);
        proof {
            lemma_count_at_most_total(self.buckets@, index as int);
            lemma_record_valid(self@, sample as int);
        }
        let count: u64 = self.buckets[index];
        self.buckets.set(index, count + 1);
        self.sample_count = self.sample_count + 1;
    }

    /// The smallest and the largest count.
    fn count_range(&self) -> (r: (u64, u64))
        requires
            self.well_formed(),
        ensures
            r.0 == lowest(self@.counts),
            r.1 == highest(self@.counts),
            r.0 <= r.1,
    {
        let mut lo: u64 = self.buckets[0];
        let mut hi: u64 = self.buckets[0];
        let mut i: usize = 1;
        assert(self.buckets@.take(1) =~= seq![self.buckets@[0]]);
        while i < self.buckets.len()
            invariant
                1 <= i <= self.buckets.len(),
                lo == lowest(self.buckets@.take(i as int)),
                hi == highest(self.buckets@.take(i as int)),
                lo <= hi,
            decreases self.buckets.len() - i,
        {
            let count: u64 = self.buckets[i];
            assert(self.buckets@.take(i + 1).drop_last() =~= self.buckets@.take(i as int));
            if count < lo {
                lo = count;
            }
            if count > hi {
                hi = count;
            }
            i = i + 1;
        }
        assert(self.buckets@.take(i as int) =~= self.buckets@);
        (lo, hi)
    }

    /// Appends the row of the chart for `level`.
    fn push_row(&self, out: &mut String, lo: u64, hi: u64, level: u64)
        requires
            self.well_formed(),
            lo == lowest(self@.counts),
            hi == highest(self@.counts),
            level < NUM_LEVELS,
        ensures
            final(out)@ == old(out)@ + chart_row(self@.counts, level as int),
    {
        proof {
            reveal_strlit("#");
            reveal_strlit(" ");
            lemma_lowest_highest(self.buckets@);
        }
        let mut i: usize = 0;
        while i < self.buckets.len()
            invariant
                i <= self.buckets.len(),
                lo == lowest(self.buckets@),
                hi == highest(self.buckets@),
                level < NUM_LEVELS,
                forall|k: int| 0 <= k < self.buckets@.len() ==> lo <= #[trigger] self.buckets@[k] <= hi,
                "#"@ == seq!['#'],
                " "@ == seq![' '],
                out@ == old(out)@ + chart_row(self.buckets@, level as int).take(i as int),
            decreases self.buckets.len() - i,
        {
            let count: u64 = self.buckets[i];
            let mut filled: bool = false;
            if lo < hi {
                let range: u128 = (hi - lo) as u128;
                let above: u128 = (count - lo) as u128;
                let scale: u128 = 2 * (NUM_LEVELS as u128);
                assert(scale * above <= 20 * (u64::MAX as u128)) by (nonlinear_arith)
                    requires
                        scale == 20,
                        above <= u64::MAX as u128,
                ;
                assert(scale * above == 2 * NUM_LEVELS * (count - lo)) by (nonlinear_arith)
                    requires
                        scale == 2 * NUM_LEVELS,
                        above == count - lo,
                ;
                let height: u128 = (scale * above + range) / (2 * range);
                filled = height >= level as u128;
            }
            assert(filled == cell_filled(self.buckets@, i as int, level as int));
            if filled {
                out.append("#");
            } else {
                out.append(" ");
            }
            i = i + 1;
            assert(out@ =~= old(out)@ + chart_row(self.buckets@, level as int).take(i as int));
        }
        assert(chart_row(self.buckets@, level as int).take(i as int) =~= chart_row(
            self.buckets@,
            level as int,
        ));
    }

    /// The chart of the histogram: the number of samples, then one row for each level
    /// from the highest to the lowest, each with one column for each bucket. A column is
    /// filled up to the height that its count has between the smallest and the largest
    /// count.
    pub fn show(&self) -> (r: String)
        requires
            self.well_formed(),
        ensures
            r@ == self@.chart(),
    {
        let (lo, hi) = self.count_range();
        let mut out = String::new();
        push_digits(&mut out, self.sample_count);
        out.append(" samples:\n");
        let ghost head = out@;
        let ghost all = chart_rows(self@.counts, NUM_LEVELS as nat);
        let mut level: u64 = NUM_LEVELS - 1;
        self.push_row(&mut out, lo, hi, level);
        proof {
            reveal_strlit("\n");
            assert(head + all =~= out@ + rows_below(self@.counts, level as nat));
        }
        while level > 0
            invariant
                level < NUM_LEVELS,
                self.well_formed(),
                lo == lowest(self@.counts),
                hi == highest(self@.counts),
                "\n"@ == seq!['\n'],
                head + all == out@ + rows_below(self@.counts, level as nat),
            decreases level,
        {
            let ghost before = out@;
            out.append("\n");
            level = level - 1;
            self.push_row(&mut out, lo, hi, level);
            assert(before + rows_below(self@.counts, (level + 1) as nat) =~= out@ + rows_below(
                self@.counts,
                level as nat,
            ));
        }
        assert(rows_below(self@.counts, 0) =~= Seq::<char>::empty());
        out.append("\n\n");
        assert(out@ =~= self@.chart());
        out
    }
}

} // verus!

//! Latency histograms.
use std::sync::Arc;
use vstd::prelude::*;

verus! {

/// The upper bound of a bucket.
#[derive(Clone, Debug)]
pub struct Bound {
    /// The largest value that falls in the bucket.
    pub upper: u64,
    /// The text that the bound prints as.
    pub le: String,
}

/// The value of a `Bound`.
pub struct BoundView {
    pub upper: nat,
    pub le: Seq<char>,
}

impl View for Bound {
    type V = BoundView;

    open spec fn view(&self) -> BoundView {
        BoundView { upper: self.upper as nat, le: self.le@ }
    }
}

/// Whether `bounds` are strictly increasing, and every value has a bucket.
pub open spec fn cover(bounds: Seq<BoundView>) -> bool {
    &&& bounds.len() > 0
    &&& forall|i: int, j: int|
        0 <= i < j < bounds.len() ==> (#[trigger] bounds[i]).upper < (#[trigger] bounds[j]).upper
    &&& bounds.last().upper == u64::MAX
}

/// Whether `i` is the lowest bucket whose bound is not below `value`.
pub open spec fn is_bucket(bounds: Seq<BoundView>, value: nat, i: int) -> bool {
    &&& 0 <= i < bounds.len()
    &&& value <= bounds[i].upper
    &&& forall|j: int| 0 <= j < i ==> (#[trigger] bounds[j]).upper < value
}

/// The bucket in which `value` falls.
pub open spec fn bucket(bounds: Seq<BoundView>, value: nat) -> int {
    choose|i: int| is_bucket(bounds, value, i)
}

/// At most one bucket takes a value.
pub proof fn lemma_bucket_unique(bounds: Seq<BoundView>, value: nat, i: int)
    requires
        is_bucket(bounds, value, i),
    ensures
        bucket(bounds, value) == i,
{
    let b = bucket(bounds, value);
    assert(is_bucket(bounds, value, b));
    if b < i {
        assert(bounds[b].upper < value);
    }
    if i < b {
        assert(bounds[i].upper < value);
    }
}

/// Every value has a bucket.
pub proof fn lemma_bucket_exists(bounds: Seq<BoundView>, value: nat)
    requires
        cover(bounds),
        value <= u64::MAX,
    ensures
        is_bucket(bounds, value, bucket(bounds, value)),
{
    lemma_bucket_from(bounds, value, bounds.len() - 1);
}

/// A value that bucket `i` can hold has a bucket.
proof fn lemma_bucket_from(bounds: Seq<BoundView>, value: nat, i: int)
    requires
        cover(bounds),
        0 <= i < bounds.len(),
        value <= bounds[i].upper,
    ensures
        is_bucket(bounds, value, bucket(bounds, value)),
    decreases i,
{
    if i == 0 || bounds[i - 1].upper < value {
        assert forall|j: int| 0 <= j < i implies (#[trigger] bounds[j]).upper < value by {
            if j < i - 1 {
                assert(bounds[j].upper < bounds[i - 1].upper);
            }
        }
        assert(is_bucket(bounds, value, i));
    } else {
        lemma_bucket_from(bounds, value, i - 1);
    }
}

/// The upper bounds of the buckets of a histogram.
#[derive(Debug)]
pub struct BucketBounds {
    bounds: Arc<Vec<Bound>>,
}

/// The values of a list of bounds.
pub open spec fn bounds_view(bounds: Seq<Bound>) -> Seq<BoundView> {
    bounds.map_values(|bound: Bound| bound@)
}

impl View for BucketBounds {
    type V = Seq<BoundView>;

    closed spec fn view(&self) -> Seq<BoundView> {
        bounds_view(self.bounds@)
    }
}

impl Clone for BucketBounds {
    fn clone(&self) -> (bounds: Self)
        ensures
            bounds@ == self@,
    {
        proof {
            use_type_invariant(self);
        }
        BucketBounds { bounds: self.bounds.clone() }
    }
}

impl BucketBounds {
    /// The bounds are strictly increasing, and every value has a bucket.
    #[verifier::type_invariant]
    pub open spec fn valid(self) -> bool {
        cover(self@)
    }

    /// Takes the bounds if they are strictly increasing and the last one is
    /// the largest value that can be observed.
    pub fn new(bounds: Vec<Bound>) -> (taken: Option<BucketBounds>)
        ensures
            taken is Some <==> cover(bounds_view(bounds@)),
            taken matches Some(taken) ==> taken@ == bounds_view(bounds@),
            taken is Some <==> {
                &&& bounds@.len() > 0
                &&& bounds@.last().upper == u64::MAX
                &&& forall|i: int, j: int|
                    0 <= i < j < bounds@.len() ==> (#[trigger] bounds@[i]).upper < (
                    #[trigger] bounds@[j]).upper
            },
            taken matches Some(taken) ==> {
                &&& taken@.len() == bounds@.len()
                &&& forall|i: int|
                    0 <= i < bounds@.len() ==> {
                        &&& (#[trigger] taken@[i]).upper == bounds@[i].upper
                        &&& taken@[i].le == bounds@[i].le@
                    }
            },
    {
        let n: usize = bounds.len();
        if n == 0 {
            return None;
        }
        let ghost view = bounds_view(bounds@);
        let mut i: usize = 1;
        while i < n
            invariant
                n == bounds@.len(),
                1 <= i <= n,
                view == bounds_view(bounds@),
                forall|j: int, k: int|
                    0 <= j < k < i ==> (#[trigger] view[j]).upper < (#[trigger] view[k]).upper,
            decreases n - i,
        {
            assert(view[i - 1] == bounds@[i - 1]@ && view[i as int] == bounds@[i as int]@);
            if bounds[i - 1].upper >= bounds[i].upper {
                return None;
            }
            assert forall|j: int, k: int| 0 <= j < k < i + 1 implies (#[trigger] view[j]).upper < (
            #[trigger] view[k]).upper by {
                if k == i && j < i - 1 {
                    assert(view[j].upper < view[i - 1].upper);
                }
            }
            i += 1;
        }
        assert(view.last() == bounds@[n - 1]@);
        if bounds[n - 1].upper != u64::MAX {
            return None;
        }
        assert forall|j: int, k: int| 0 <= j < k < bounds@.len() implies (
        #[trigger] bounds@[j]).upper < (#[trigger] bounds@[k]).upper by {
            assert(view[j].upper < view[k].upper);
        }
        Some(BucketBounds { bounds: Arc::new(bounds) })
    }

    /// The number of buckets.
    pub fn len(&self) -> (n: usize)
        ensures
            n == self@.len(),
    {
        self.bounds.len()
    }

    /// The text of the bound of bucket `i`.
    pub fn le(&self, i: usize) -> (le: &str)
        requires
            i < self@.len(),
        ensures
            le@ == self@[i as int].le,
    {
        self.bounds[i].le.as_str()
    }

    /// The bucket in which `value` falls.
    pub fn bucket(&self, value: u64) -> (i: usize)
        ensures
            is_bucket(self@, value as nat, i as int),
            i == bucket(self@, value as nat),
            i < self@.len(),
            value <= self@[i as int].upper,
            i > 0 ==> self@[i - 1].upper < value,
    {
        proof {
            use_type_invariant(self);
        }
        let n: usize = self.bounds.len();
        let mut i: usize = 0;
        while self.bounds[i].upper < value
            invariant
                cover(self@),
                self@ == bounds_view(self.bounds@),
                n == self.bounds@.len(),
                i < n,
                forall|j: int| 0 <= j < i ==> (#[trigger] self@[j]).upper < value,
            decreases n - i,
        {
            assert(self@[i as int] == self.bounds@[i as int]@);
            assert(self@.last().upper == u64::MAX);
            i += 1;
        }
        assert(self@[i as int] == self.bounds@[i as int]@);
        proof {
            lemma_bucket_unique(self@, value as nat, i as int);
        }
        i
    }
}

/// The number of values in the first `n` buckets.
pub open spec fn cumulative(counts: Seq<nat>, n: int) -> nat
    decreases n,
{
    if n <= 0 {
        0
    } else {
        cumulative(counts, n - 1) + counts[n - 1]
    }
}

/// A count that includes more buckets is not smaller.
pub proof fn lemma_cumulative_monotonic(counts: Seq<nat>, m: int, n: int)
    requires
        m <= n,
    ensures
        cumulative(counts, m) <= cumulative(counts, n),
    decreases n - m,
{
    if m < n && n > 0 {
        lemma_cumulative_monotonic(counts, m, n - 1);
    }
}

/// One more value in bucket `b` raises the counts that include it by one.
proof fn lemma_cumulative_update(counts: Seq<nat>, b: int, n: int)
    requires
        0 <= b < counts.len(),
        n <= counts.len(),
    ensures
        cumulative(counts.update(b, counts[b] + 1), n) == cumulative(counts, n) + (if b < n {
            1nat
        } else {
            0nat
        }),
    decreases n,
{
    if n > 0 {
        lemma_cumulative_update(counts, b, n - 1);
    }
}

/// Empty buckets hold no values.
proof fn lemma_cumulative_zero(counts: Seq<nat>, n: int)
    requires
        forall|i: int| 0 <= i < counts.len() ==> #[trigger] counts[i] == 0,
        n <= counts.len(),
    ensures
        cumulative(counts, n) == 0,
    decreases n,
{
    if n > 0 {
        lemma_cumulative_zero(counts, n - 1);
    }
}

/// A histogram: how many values fell in each bucket, and their sum.
#[derive(Clone, Debug)]
pub struct Histogram {
    counts: Vec<u64>,
    sum: u128,
}

/// The value of a `Histogram`.
#[verifier::ext_equal]
pub struct HistogramView {
    pub counts: Seq<nat>,
    pub sum: nat,
}

impl View for Histogram {
    type V = HistogramView;

    closed spec fn view(&self) -> HistogramView {
        HistogramView {
            counts: self.counts@.map_values(|count: u64| count as nat),
            sum: self.sum as nat,
        }
    }
}

impl HistogramView {
    /// A histogram of `n` buckets in which nothing was observed.
    pub open spec fn empty(n: nat) -> HistogramView {
        HistogramView { counts: Seq::new(n, |i: int| 0nat), sum: 0 }
    }

    /// How many values were observed.
    pub open spec fn total(self) -> nat {
        cumulative(self.counts, self.counts.len() as int)
    }

    /// The histogram after `value` is observed too.
    pub open spec fn observed(self, bounds: Seq<BoundView>, value: nat) -> HistogramView {
        let b = bucket(bounds, value);
        HistogramView { counts: self.counts.update(b, self.counts[b] + 1), sum: self.sum + value }
    }
}

/// A histogram in which nothing was observed counts nothing, in any bucket.
pub proof fn lemma_empty_total(n: nat, m: int)
    requires
        m <= n,
    ensures
        cumulative(HistogramView::empty(n).counts, m) == 0,
{
    lemma_cumulative_zero(HistogramView::empty(n).counts, m);
}

/// Observing a value adds one to exactly those cumulative counts whose bound
/// is not below it, and the value to the sum.
pub proof fn law_observe(histogram: HistogramView, bounds: Seq<BoundView>, value: nat, i: int)
    requires
        cover(bounds),
        histogram.counts.len() == bounds.len(),
        value <= u64::MAX,
        0 <= i < bounds.len(),
    ensures
        cumulative(histogram.observed(bounds, value).counts, i + 1) == cumulative(
            histogram.counts,
            i + 1,
        ) + (if value <= bounds[i].upper {
            1nat
        } else {
            0nat
        }),
        histogram.observed(bounds, value).sum == histogram.sum + value,
{
    let b = bucket(bounds, value);
    lemma_bucket_exists(bounds, value);
    lemma_cumulative_update(histogram.counts, b, i + 1);
    if b < i {
        assert(bounds[b].upper < bounds[i].upper);
    }
}

/// Whether `after` is `before` with one more value: the sum has grown by the
/// value, and the one count that has gone up, by one, is that of the bucket
/// whose bound is not below the value while the bound of the bucket before it
/// is.
pub open spec fn observes(
    before: HistogramView,
    after: HistogramView,
    bounds: Seq<BoundView>,
    value: nat,
) -> bool {
    &&& after.sum == before.sum + value
    &&& after.counts.len() == before.counts.len()
    &&& forall|b: int|
        0 <= b < bounds.len() ==> #[trigger] after.counts[b] == before.counts[b] + (if value
            <= bounds[b].upper && (b == 0 || bounds[b - 1].upper < value) {
            1nat
        } else {
            0nat
        })
}

/// Observing a value raises the count of the one bucket that takes it, by one,
/// and the sum by the value.
pub proof fn law_observes(histogram: HistogramView, bounds: Seq<BoundView>, value: nat)
    requires
        cover(bounds),
        histogram.counts.len() == bounds.len(),
        value <= u64::MAX,
    ensures
        observes(histogram, histogram.observed(bounds, value), bounds, value),
{
    let i = bucket(bounds, value);
    lemma_bucket_exists(bounds, value);
    let after = histogram.observed(bounds, value);
    assert forall|b: int| 0 <= b < bounds.len() implies #[trigger] after.counts[b]
        == histogram.counts[b] + (if value <= bounds[b].upper && (b == 0 || bounds[b - 1].upper
        < value) {
        1nat
    } else {
        0nat
    }) by {
        if b < i {
            assert(bounds[b].upper < value);
        }
        if i < b - 1 {
            assert(bounds[i].upper < bounds[b - 1].upper);
        }
        if b == i && b > 0 {
            assert(bounds[b - 1].upper < value);
        }
    }
}

/// Observing a value adds one to the number of values observed.
pub proof fn law_observe_total(histogram: HistogramView, bounds: Seq<BoundView>, value: nat)
    requires
        cover(bounds),
        histogram.counts.len() == bounds.len(),
        value <= u64::MAX,
    ensures
        histogram.observed(bounds, value).total() == histogram.total() + 1,
        histogram.observed(bounds, value).counts.len() == histogram.counts.len(),
{
    lemma_bucket_exists(bounds, value);
    lemma_cumulative_update(
        histogram.counts,
        bucket(bounds, value),
        histogram.counts.len() as int,
    );
}

impl Histogram {
    /// A histogram of `n` buckets in which nothing was observed.
    pub fn new(n: usize) -> (histogram: Histogram)
        ensures
            histogram@ == HistogramView::empty(n as nat),
            histogram@.counts.len() == n,
            forall|i: int| 0 <= i < n ==> #[trigger] histogram@.counts[i] == 0,
            histogram@.sum == 0,
    {
        let mut counts: Vec<u64> = Vec::new();
        let mut i: usize = 0;
        while i < n
            invariant
                i <= n,
                counts@.len() == i,
                forall|j: int| 0 <= j < i ==> #[trigger] counts@[j] == 0,
            decreases n - i,
        {
            counts.push(0);
            i += 1;
        }
        let histogram = Histogram { counts, sum: 0 };
        assert(histogram@ =~= HistogramView::empty(n as nat));
        histogram
    }

    /// Observes a value.
    pub fn observe(&mut self, bounds: &BucketBounds, value: u64)
        requires
            old(self)@.counts.len() == bounds@.len(),
            old(self)@.total() < u64::MAX,
            old(self)@.sum + value <= u128::MAX,
        ensures
            final(self)@ == old(self)@.observed(bounds@, value as nat),
            observes(old(self)@, final(self)@, bounds@, value as nat),
    {
        let b = bounds.bucket(value);
        proof {
            let n = self@.counts.len() as int;
            assert(self@.counts[b as int] == self.counts@[b as int]);
            lemma_cumulative_monotonic(self@.counts, b + 1, n);
            lemma_cumulative_monotonic(self@.counts, 0, b as int);
        }
        let count: u64 = self.counts[b];
        self.counts.set(b, count + 1);
        self.sum = self.sum + value as u128;
        assert(self@ =~= old(self)@.observed(bounds@, value as nat));
        proof {
            use_type_invariant(bounds);
            law_observes(old(self)@, bounds@, value as nat);
        }
    }

    /// The number of buckets.
    pub fn len(&self) -> (n: usize)
        ensures
            n == self@.counts.len(),
    {
        self.counts.len()
    }

    /// The number of values in bucket `i`.
    pub fn count(&self, i: usize) -> (count: u64)
        requires
            i < self@.counts.len(),
        ensures
            count == self@.counts[i as int],
    {
        self.counts[i]
    }

    /// The sum of the values observed.
    pub fn sum(&self) -> (sum: u128)
        ensures
            sum == self@.sum,
    {
        self.sum
    }
}

} // verus!

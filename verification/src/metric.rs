//! Metrics: values of one kind, kept by label set, and their text.
use crate::index::{
    holds_key, new_index, slot, slot_or_insert, slots_in_order, slots_of, LabelKey,
};
use crate::labels::LabelSet;
use crate::latency::{
    cumulative, lemma_cumulative_monotonic, BoundView, BucketBounds, Histogram, HistogramView,
};
use crate::text::{decimal, fmt_decimal};
use indexmap::IndexMap;
use std::sync::Arc;
use vstd::prelude::*;

verus! {

/// Whether position `i` of `values` holds the value for `labels`.
pub open spec fn is_at<L, M>(values: Seq<(L, M)>, i: int, labels: L) -> bool {
    0 <= i < values.len() && values[i].0 == labels
}

/// Whether there is a value for `labels`.
pub open spec fn contains<L, M>(values: Seq<(L, M)>, labels: L) -> bool {
    exists|i: int| is_at(values, i, labels)
}

/// The position of the value for `labels`.
pub open spec fn position<L, M>(values: Seq<(L, M)>, labels: L) -> int {
    choose|i: int| is_at(values, i, labels)
}

/// The value for `labels`, or `fresh` if there is none.
pub open spec fn value_or<L, M>(values: Seq<(L, M)>, labels: L, fresh: M) -> M {
    if contains(values, labels) {
        values[position(values, labels)].1
    } else {
        fresh
    }
}

/// The values after the value for `labels` is set: in its place if there was
/// one, and at the end if there was none.
pub open spec fn with_value<L, M>(values: Seq<(L, M)>, labels: L, value: M) -> Seq<(L, M)> {
    if contains(values, labels) {
        values.update(position(values, labels), (labels, value))
    } else {
        values.push((labels, value))
    }
}

/// Whether no labels occur twice.
pub open spec fn distinct<L, M>(values: Seq<(L, M)>) -> bool {
    forall|i: int, j: int|
        0 <= i < j < values.len() ==> (#[trigger] values[i]).0 != (#[trigger] values[j]).0
}

/// Setting a value keeps labels distinct.
pub proof fn lemma_with_value_distinct<L, M>(values: Seq<(L, M)>, labels: L, value: M)
    requires
        distinct(values),
    ensures
        distinct(with_value(values, labels, value)),
{
    if contains(values, labels) {
        assert(is_at(values, position(values, labels), labels));
    } else {
        assert forall|i: int| 0 <= i < values.len() implies (#[trigger] values[i]).0 != labels by {
            assert(!is_at(values, i, labels));
        }
    }
}

/// A counter.
#[derive(Clone, Copy, Debug, PartialEq, Eq)]
pub struct Counter(pub u64);

impl View for Counter {
    type V = nat;

    open spec fn view(&self) -> nat {
        self.0 as nat
    }
}

impl Default for Counter {
    fn default() -> (counter: Self)
        ensures
            counter@ == 0,
    {
        Counter(0)
    }
}

/// The values of one kind, by label set.
#[derive(Debug)]
pub struct Metric<M: View, L: LabelSet> {
    name: &'static str,
    help: &'static str,
    /// Labels that every value has, from the environment.
    ///
    /// Since these apply to all values and never change over the lifetime of
    /// the process, they are kept here rather than in the labels of each
    /// individual value.
    env_labels: Option<Arc<str>>,
    /// The slot of `values` that each label set has.
    index: IndexMap<LabelKey, usize>,
    values: Vec<(Arc<L>, M)>,
}

/// The value of a `Metric`.
#[verifier::ext_equal]
pub struct MetricView<L, M> {
    pub name: Seq<char>,
    pub help: Seq<char>,
    pub env_labels: Option<Seq<char>>,
    /// The values by label set, in the order in which label sets first came up.
    pub values: Seq<(L, M)>,
}

/// The value of the labels from the environment.
pub open spec fn env_view(env_labels: Option<Arc<str>>) -> Option<Seq<char>> {
    match env_labels {
        Some(env_labels) => Some((*env_labels)@),
        None => None,
    }
}

/// The labels from the environment are taken as they are.
pub proof fn law_env_view(env_labels: Arc<str>)
    ensures
        env_view(Some(env_labels)) == Some((*env_labels)@),
        env_view(None) is None,
{
}

/// The values of the slots.
spec fn entries<M: View, L: LabelSet>(values: Seq<(Arc<L>, M)>) -> Seq<(L::V, M::V)> {
    values.map_values(|value: (Arc<L>, M)| (value.0@, value.1@))
}

/// Whether `index` maps the labels of each value to its slot, and no labels
/// occur twice.
spec fn indexed<M: View, L: LabelSet>(
    index: IndexMap<LabelKey, usize>,
    values: Seq<(Arc<L>, M)>,
) -> bool {
    &&& slots_of(index).len() == values.len()
    &&& forall|i: int|
        0 <= i < values.len() ==> {
            &&& (#[trigger] slots_of(index)[i]).0 == L::key(values[i].0@)
            &&& slots_of(index)[i].1 == i
        }
    &&& distinct(entries(values))
}

impl<M: View, L: LabelSet> View for Metric<M, L> {
    type V = MetricView<L::V, M::V>;

    closed spec fn view(&self) -> MetricView<L::V, M::V> {
        MetricView {
            name: self.name@,
            help: self.help@,
            env_labels: env_view(self.env_labels),
            values: entries(self.values@),
        }
    }
}

impl<M: View, L: LabelSet> Metric<M, L> {
    /// Whether the index maps the labels of each value to its slot, and no
    /// labels occur twice.
    pub closed spec fn wf(&self) -> bool {
        indexed(self.index, self.values@)
    }

    /// A metric without values.
    pub fn new(name: &'static str, help: &'static str, env_labels: Option<Arc<str>>) -> (metric:
        Self)
        ensures
            metric.wf(),
            metric@.name == name@,
            metric@.help == help@,
            metric@.env_labels == env_view(env_labels),
            metric@.values == Seq::<(L::V, M::V)>::empty(),
    {
        let metric = Metric { name, help, env_labels, index: new_index(), values: Vec::new() };
        assert(metric@.values =~= Seq::empty());
        metric
    }

    /// No labels occur twice.
    pub proof fn lemma_distinct(&self)
        requires
            self.wf(),
        ensures
            distinct(self@.values),
    {
    }

    /// The position of the labels, if there is a value for them.
    proof fn lemma_key_position(&self, labels: L::V)
        requires
            self.wf(),
        ensures
            contains(self@.values, labels) ==> {
                let i = position(self@.values, labels);
                &&& is_at(self@.values, i, labels)
                &&& holds_key(slots_of(self.index), i, L::key(labels))
                &&& slots_of(self.index)[i].1 == i
            },
            !contains(self@.values, labels) ==> forall|i: int| !#[trigger]
                holds_key(slots_of(self.index), i, L::key(labels)),
    {
        if contains(self@.values, labels) {
            let i = position(self@.values, labels);
            assert(is_at(self@.values, i, labels));
            assert(slots_of(self.index)[i].0 == L::key(self.values@[i].0@));
        } else {
            assert forall|i: int| !#[trigger]
                holds_key(slots_of(self.index), i, L::key(labels)) by {
                if holds_key(slots_of(self.index), i, L::key(labels)) {
                    L::lemma_key_determines(self.values@[i].0@, labels);
                    assert(is_at(self@.values, i, labels));
                }
            }
        }
    }

    /// The value for the labels, which is `fresh` where there was none.
    pub(crate) fn value_mut(&mut self, labels: &Arc<L>, fresh: M) -> (value: &mut M)
        requires
            old(self).wf(),
        ensures
            final(self).wf(),
            (*value)@ == value_or(old(self)@.values, labels@, fresh@),
            final(self)@ == (MetricView {
                values: with_value(old(self)@.values, labels@, (*final(value))@),
                ..old(self)@
            }),
    {
        proof {
            self.lemma_key_position(labels@);
        }
        let n: usize = self.values.len();
        let slot = slot_or_insert(&mut self.index, labels.to_key(), n);
        if slot == n {
            self.values.push((labels.clone(), fresh));
        }
        proof {
            let values = self.values@;
            assert forall|entry: (Arc<L>, M)| entry.0 == values[slot as int].0 implies indexed(
                self.index,
                #[trigger] values.update(slot as int, entry),
            ) by {
                let updated = values.update(slot as int, entry);
                lemma_with_value_distinct(old(self)@.values, labels@, entry.1@);
                assert(entries(updated) =~= with_value(old(self)@.values, labels@, entry.1@));
            }
        }
        &mut self.values[slot].1
    }

    /// The value for the labels, if there is one.
    pub fn value(&self, labels: &L) -> (value: Option<&M>)
        requires
            self.wf(),
        ensures
            match value {
                Some(value) => contains(self@.values, labels@) && self@.values[position(
                    self@.values,
                    labels@,
                )].1 == value@,
                None => !contains(self@.values, labels@),
            },
            match value {
                Some(value) => exists|i: int|
                    0 <= i < self@.values.len() && #[trigger] self@.values[i] == (
                        labels@,
                        value@,
                    ),
                None => forall|i: int|
                    0 <= i < self@.values.len() ==> (#[trigger] self@.values[i]).0 != labels@,
            },
    {
        proof {
            self.lemma_key_position(labels@);
        }
        match slot(&self.index, &labels.to_key()) {
            Some(slot) => {
                assert(self@.values[slot as int] == (labels@, self.values@[slot as int].1@));
                Some(&self.values[slot].1)
            },
            None => {
                assert forall|i: int| 0 <= i < self@.values.len() implies (
                #[trigger] self@.values[i]).0 != labels@ by {
                    assert(!is_at(self@.values, i, labels@));
                }
                None
            },
        }
    }
}

/// The labels from the environment, followed by a comma if there are any.
pub open spec fn env_text(env_labels: Option<Seq<char>>) -> Seq<char> {
    match env_labels {
        Some(env_labels) => env_labels + ","@,
        None => Seq::empty(),
    }
}

/// The label of a bucket's bound.
pub open spec fn le_text(le: Option<Seq<char>>) -> Seq<char> {
    match le {
        Some(le) => ",le=\""@ + le + "\""@,
        None => Seq::empty(),
    }
}

impl<L, M> MetricView<L, M> {
    /// The lines that say what the metric is.
    pub open spec fn header(self, kind: Seq<char>) -> Seq<char> {
        "# HELP "@ + self.name + " "@ + self.help + "\n# TYPE "@ + self.name + " "@ + kind + "\n"@
    }

    /// The line for one value, which is named after the metric, with a suffix.
    pub open spec fn sample(
        self,
        suffix: Seq<char>,
        labels: Seq<char>,
        le: Option<Seq<char>>,
        value: Seq<char>,
    ) -> Seq<char> {
        self.name + suffix + "{"@ + env_text(self.env_labels) + labels + le_text(le) + "} "@ + value
            + "\n"@
    }
}

impl<M: View, L: LabelSet> Metric<M, L> {
    /// Appends the lines that say what the metric is.
    fn fmt_header(&self, kind: &str, f: &mut String)
        ensures
            final(f)@ == old(f)@ + self@.header(kind@),
    {
        f.append("# HELP ");
        f.append(self.name);
        f.append(" ");
        f.append(self.help);
        f.append("\n# TYPE ");
        f.append(self.name);
        f.append(" ");
        f.append(kind);
        f.append("\n");
        assert(f@ =~= old(f)@ + self@.header(kind@));
    }

    /// Appends the line for one value.
    fn fmt_sample(&self, suffix: &str, labels: &L, le: Option<&str>, value: &str, f: &mut String)
        ensures
            final(f)@ == old(f)@ + self@.sample(
                suffix@,
                L::text(labels@),
                match le {
                    Some(le) => Some(le@),
                    None => None,
                },
                value@,
            ),
    {
        let ghost le_view = match le {
            Some(le) => Some(le@),
            None => None,
        };
        f.append(self.name);
        f.append(suffix);
        f.append("{");
        let ghost before = f@;
        match &self.env_labels {
            Some(env_labels) => {
                f.append(&**env_labels);
                f.append(",");
            },
            None => {},
        }
        assert(f@ =~= before + env_text(self@.env_labels));
        labels.fmt(f);
        let ghost before = f@;
        match le {
            Some(le) => {
                f.append(",le=\"");
                f.append(le);
                f.append("\"");
            },
            None => {},
        }
        assert(f@ =~= before + le_text(le_view));
        f.append("} ");
        f.append(value);
        f.append("\n");
        assert(f@ =~= old(f)@ + self@.sample(suffix@, L::text(labels@), le_view, value@));
    }
}

/// Whether `texts` are texts that `number` returns for `numbers`.
pub open spec fn formatted<N, F: Fn(N) -> String>(
    number: F,
    numbers: Seq<N>,
    texts: Seq<String>,
) -> bool {
    &&& texts.len() == numbers.len()
    &&& forall|i: int|
        0 <= i < numbers.len() ==> call_ensures(number, (numbers[i],), #[trigger] texts[i])
}

/// The counts of counters.
pub open spec fn counts<L>(values: Seq<(L, nat)>) -> Seq<u64> {
    values.map_values(|value: (L, nat)| value.1 as u64)
}

/// The sums of histograms.
pub open spec fn sums<L>(values: Seq<(L, HistogramView)>) -> Seq<u128> {
    values.map_values(|value: (L, HistogramView)| value.1.sum as u128)
}

impl<L: LabelSet> Metric<Counter, L> {
    /// No counter passes the largest number that it can hold.
    pub(crate) proof fn lemma_bounded(&self)
        ensures
            forall|i: int|
                0 <= i < self@.values.len() ==> (#[trigger] self@.values[i]).1 <= u64::MAX,
    {
    }

    /// The texts that `number` returns for the counters.
    pub fn numbers<F: Fn(u64) -> String>(&self, number: &F) -> (numbers: Vec<String>)
        requires
            forall|n: u64| call_requires(*number, (n,)),
        ensures
            formatted(*number, counts(self@.values), numbers@),
            numbers@.len() == self@.values.len(),
            forall|i: int|
                0 <= i < self@.values.len() ==> (#[trigger] self@.values[i]).1 <= u64::MAX,
            forall|i: int|
                0 <= i < self@.values.len() ==> call_ensures(
                    *number,
                    (self@.values[i].1 as u64,),
                    #[trigger] numbers@[i],
                ),
    {
        let mut numbers: Vec<String> = Vec::new();
        let mut i: usize = 0;
        while i < self.values.len()
            invariant
                forall|n: u64| call_requires(*number, (n,)),
                i <= self.values@.len(),
                self@.values == entries(self.values@),
                numbers@.len() == i,
                forall|j: int| 0 <= j < i ==> (#[trigger] self@.values[j]).1 <= u64::MAX,
                forall|j: int|
                    0 <= j < i ==> call_ensures(
                        *number,
                        (self@.values[j].1 as u64,),
                        #[trigger] numbers@[j],
                    ),
            decreases self.values@.len() - i,
        {
            let n: u64 = self.values[i].1.0;
            assert(self@.values[i as int].1 == n);
            numbers.push(number(n));
            i += 1;
        }
        numbers
    }

    /// The lines for the first `n` counters, of which `numbers` are the texts.
    pub open spec fn samples_text(
        metric: MetricView<L::V, nat>,
        numbers: Seq<String>,
        n: int,
    ) -> Seq<char>
        decreases n,
    {
        if n <= 0 {
            Seq::empty()
        } else {
            Self::samples_text(metric, numbers, n - 1) + metric.sample(
                Seq::empty(),
                L::text(metric.values[n - 1].0),
                None,
                numbers[n - 1]@,
            )
        }
    }

    /// The text of a counter metric, where `numbers` are the texts of the
    /// counters.
    pub open spec fn text(metric: MetricView<L::V, nat>, numbers: Seq<String>) -> Seq<char> {
        metric.header("counter"@) + Self::samples_text(
            metric,
            numbers,
            metric.values.len() as int,
        )
    }

    /// Appends the text of the metric, where `numbers` are the texts of the
    /// counters.
    pub fn fmt(&self, numbers: &Vec<String>, f: &mut String)
        requires
            self.wf(),
            numbers@.len() == self@.values.len(),
        ensures
            final(f)@ == old(f)@ + Self::text(self@, numbers@),
    {
        self.fmt_header("counter", f);
        let ghost head = f@;
        let slots = slots_in_order(&self.index);
        let mut i: usize = 0;
        assert(f@ =~= head + Self::samples_text(self@, numbers@, 0));
        while i < slots.len()
            invariant
                self.wf(),
                numbers@.len() == self@.values.len(),
                slots@.len() == self@.values.len(),
                forall|j: int|
                    0 <= j < slots@.len() ==> #[trigger] slots@[j] == slots_of(self.index)[j].1,
                i <= slots@.len(),
                f@ == head + Self::samples_text(self@, numbers@, i as int),
            decreases slots@.len() - i,
        {
            let ghost before = f@;
            let slot: usize = slots[i];
            let labels = &self.values[slot].0;
            assert(labels@ == self@.values[i as int].0);
            self.fmt_sample("", labels, None, numbers[i].as_str(), f);
            i += 1;
            proof {
                reveal_strlit("");
                assert(""@ =~= Seq::<char>::empty());
                assert(f@ =~= head + Self::samples_text(self@, numbers@, i as int));
            }
        }
        assert(f@ =~= old(f)@ + Self::text(self@, numbers@));
    }
}

impl<L: LabelSet> Metric<Histogram, L> {
    /// The texts that `number` returns for the sums of the histograms.
    pub fn numbers<F: Fn(u128) -> String>(&self, number: &F) -> (numbers: Vec<String>)
        requires
            forall|n: u128| call_requires(*number, (n,)),
        ensures
            formatted(*number, sums(self@.values), numbers@),
            numbers@.len() == self@.values.len(),
            forall|i: int|
                0 <= i < self@.values.len() ==> (#[trigger] self@.values[i]).1.sum <= u128::MAX,
            forall|i: int|
                0 <= i < self@.values.len() ==> call_ensures(
                    *number,
                    (self@.values[i].1.sum as u128,),
                    #[trigger] numbers@[i],
                ),
    {
        let mut numbers: Vec<String> = Vec::new();
        let mut i: usize = 0;
        while i < self.values.len()
            invariant
                forall|n: u128| call_requires(*number, (n,)),
                i <= self.values@.len(),
                self@.values == entries(self.values@),
                numbers@.len() == i,
                forall|j: int| 0 <= j < i ==> (#[trigger] self@.values[j]).1.sum <= u128::MAX,
                forall|j: int|
                    0 <= j < i ==> call_ensures(
                        *number,
                        (self@.values[j].1.sum as u128,),
                        #[trigger] numbers@[j],
                    ),
            decreases self.values@.len() - i,
        {
            let n: u128 = self.values[i].1.sum();
            assert(self@.values[i as int].1.sum == n);
            numbers.push(number(n));
            i += 1;
        }
        numbers
    }

    /// The lines for the first `n` buckets of histogram `i`. The count of a
    /// bucket includes the values in all lower buckets.
    pub open spec fn buckets_text(
        metric: MetricView<L::V, HistogramView>,
        bounds: Seq<BoundView>,
        i: int,
        n: int,
    ) -> Seq<char>
        decreases n,
    {
        if n <= 0 {
            Seq::empty()
        } else {
            Self::buckets_text(metric, bounds, i, n - 1) + metric.sample(
                "_bucket"@,
                L::text(metric.values[i].0),
                Some(bounds[n - 1].le),
                decimal(cumulative(metric.values[i].1.counts, n)),
            )
        }
    }

    /// The lines for histogram `i`, where `sum` is the text of its sum.
    pub open spec fn histogram_text(
        metric: MetricView<L::V, HistogramView>,
        bounds: Seq<BoundView>,
        i: int,
        sum: Seq<char>,
    ) -> Seq<char> {
        Self::buckets_text(metric, bounds, i, bounds.len() as int) + metric.sample(
            "_count"@,
            L::text(metric.values[i].0),
            None,
            decimal(metric.values[i].1.total()),
        ) + metric.sample("_sum"@, L::text(metric.values[i].0), None, sum)
    }

    /// The lines for the first `n` histograms, where `numbers` are the texts of
    /// their sums.
    pub open spec fn samples_text(
        metric: MetricView<L::V, HistogramView>,
        bounds: Seq<BoundView>,
        numbers: Seq<String>,
        n: int,
    ) -> Seq<char>
        decreases n,
    {
        if n <= 0 {
            Seq::empty()
        } else {
            Self::samples_text(metric, bounds, numbers, n - 1) + Self::histogram_text(
                metric,
                bounds,
                n - 1,
                numbers[n - 1]@,
            )
        }
    }

    /// The text of a histogram metric, where `numbers` are the texts of the
    /// sums.
    pub open spec fn text(
        metric: MetricView<L::V, HistogramView>,
        bounds: Seq<BoundView>,
        numbers: Seq<String>,
    ) -> Seq<char> {
        metric.header("histogram"@) + Self::samples_text(
            metric,
            bounds,
            numbers,
            metric.values.len() as int,
        )
    }

    /// Whether every histogram has a bucket for each bound, and can count the
    /// values observed.
    pub open spec fn fits(values: Seq<(L::V, HistogramView)>, bounds: Seq<BoundView>) -> bool {
        forall|i: int|
            0 <= i < values.len() ==> {
                &&& (#[trigger] values[i]).1.counts.len() == bounds.len()
                &&& values[i].1.total() <= u64::MAX
            }
    }

    /// Appends the lines for the histogram in slot `i`, where `sum` is the text
    /// of its sum.
    fn fmt_histogram(&self, bounds: &BucketBounds, i: usize, sum: &str, f: &mut String)
        requires
            i < self@.values.len(),
            Self::fits(self@.values, bounds@),
        ensures
            final(f)@ == old(f)@ + Self::histogram_text(self@, bounds@, i as int, sum@),
    {
        let labels = &self.values[i].0;
        let histogram = &self.values[i].1;
        let ghost counts = histogram@.counts;
        assert(self@.values[i as int] == (labels@, histogram@));
        let n: usize = bounds.len();
        // Since Prometheus expects each bucket's value to be the sum of the
        // number of values in this bucket and all lower buckets, track the
        // total count here.
        let mut total_count: u64 = 0;
        let mut b: usize = 0;
        assert(f@ =~= old(f)@ + Self::buckets_text(self@, bounds@, i as int, 0));
        while b < n
            invariant
                n == bounds@.len(),
                n == counts.len(),
                b <= n,
                i < self@.values.len(),
                self@.values[i as int] == (labels@, histogram@),
                counts == histogram@.counts,
                cumulative(counts, n as int) <= u64::MAX,
                total_count == cumulative(counts, b as int),
                f@ == old(f)@ + Self::buckets_text(self@, bounds@, i as int, b as int),
            decreases n - b,
        {
            proof {
                lemma_cumulative_monotonic(counts, b + 1, n as int);
            }
            total_count = total_count + histogram.count(b);
            let mut count = String::new();
            fmt_decimal(total_count, &mut count);
            assert(count@ =~= decimal(total_count as nat));
            self.fmt_sample("_bucket", labels, Some(bounds.le(b)), count.as_str(), f);
            b += 1;
            assert(f@ =~= old(f)@ + Self::buckets_text(self@, bounds@, i as int, b as int));
        }
        let mut count = String::new();
        fmt_decimal(total_count, &mut count);
        assert(count@ =~= decimal(total_count as nat));
        self.fmt_sample("_count", labels, None, count.as_str(), f);
        self.fmt_sample("_sum", labels, None, sum, f);
        assert(f@ =~= old(f)@ + Self::histogram_text(self@, bounds@, i as int, sum@));
    }

    /// Appends the text of the metric, where `numbers` are the texts of the
    /// sums.
    pub fn fmt(&self, bounds: &BucketBounds, numbers: &Vec<String>, f: &mut String)
        requires
            self.wf(),
            Self::fits(self@.values, bounds@),
            numbers@.len() == self@.values.len(),
        ensures
            final(f)@ == old(f)@ + Self::text(self@, bounds@, numbers@),
    {
        self.fmt_header("histogram", f);
        let ghost head = f@;
        let slots = slots_in_order(&self.index);
        let mut i: usize = 0;
        assert(f@ =~= head + Self::samples_text(self@, bounds@, numbers@, 0));
        while i < slots.len()
            invariant
                self.wf(),
                Self::fits(self@.values, bounds@),
                numbers@.len() == self@.values.len(),
                slots@.len() == self@.values.len(),
                forall|j: int|
                    0 <= j < slots@.len() ==> #[trigger] slots@[j] == slots_of(self.index)[j].1,
                i <= slots@.len(),
                f@ == head + Self::samples_text(self@, bounds@, numbers@, i as int),
            decreases slots@.len() - i,
        {
            assert(slots@[i as int] == i);
            self.fmt_histogram(bounds, slots[i], numbers[i].as_str(), f);
            i += 1;
            assert(f@ =~= head + Self::samples_text(self@, bounds@, numbers@, i as int));
        }
        assert(f@ =~= old(f)@ + Self::text(self@, bounds@, numbers@));
    }
}

} // verus!

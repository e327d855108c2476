//! What holds of metrics after any events, and of their text.
use crate::event::{
    Event, Request, Response, StreamRequestEnd, StreamRequestFail, StreamResponseEnd,
    StreamResponseFail,
};
use crate::labels::{
    LabelSet, OutboundLabelsView, RequestLabels, RequestLabelsView, ResponseLabels,
    ResponseLabelsView,
};
use crate::latency::{
    cover, cumulative, law_observe, law_observe_total, lemma_cumulative_monotonic, lemma_empty_total, BoundView,
    Histogram, HistogramView,
};
use crate::metric::{
    contains, counts, distinct, formatted, is_at, position, sums, value_or, with_value, Counter,
    Metric, MetricView,
};
use crate::metrics::{
    histogram_or_empty, incremented, law_recorded_consistent, lemma_paired_position, measured,
    paired, MetricsView, Numbers, Observation,
};
use crate::recording::{request_labels, response_labels};
use crate::serve::{answers, ReplyView, METRICS_PATH};
use vstd::prelude::*;

verus! {

impl MetricsView {
    /// The metrics after a series of events was recorded.
    pub open spec fn recorded_all(self, events: Seq<Event>) -> MetricsView
        decreases events.len(),
    {
        if events.len() == 0 {
            self
        } else {
            self.recorded_all(events.drop_last()).recorded(events.last().observation())
        }
    }
}

/// The durations of the finished requests with the labels.
pub open spec fn request_durations(events: Seq<Event>, labels: RequestLabelsView) -> Seq<nat>
    decreases events.len(),
{
    if events.len() == 0 {
        Seq::empty()
    } else {
        let before = request_durations(events.drop_last(), labels);
        match events.last() {
            Event::StreamRequestFail(req, fail) if request_labels(req) == labels => before.push(
                fail.since_request_open as nat,
            ),
            Event::StreamRequestEnd(req, end) if request_labels(req) == labels => before.push(
                end.since_request_open as nat,
            ),
            _ => before,
        }
    }
}

/// The durations of the finished responses with the labels.
pub open spec fn response_durations(events: Seq<Event>, labels: ResponseLabelsView) -> Seq<nat>
    decreases events.len(),
{
    if events.len() == 0 {
        Seq::empty()
    } else {
        let before = response_durations(events.drop_last(), labels);
        match events.last() {
            Event::StreamResponseFail(res, fail) if response_labels(res, None) == labels
                => before.push(fail.since_response_open as nat),
            Event::StreamResponseEnd(res, end) if response_labels(res, end.grpc_status) == labels
                => before.push(end.since_response_open as nat),
            _ => before,
        }
    }
}

/// The latencies of the finished responses with the labels.
pub open spec fn response_latencies(events: Seq<Event>, labels: ResponseLabelsView) -> Seq<nat>
    decreases events.len(),
{
    if events.len() == 0 {
        Seq::empty()
    } else {
        let before = response_latencies(events.drop_last(), labels);
        match events.last() {
            Event::StreamResponseFail(res, fail) if response_labels(res, None) == labels
                => before.push(fail.since_request_open as nat),
            Event::StreamResponseEnd(res, end) if response_labels(res, end.grpc_status) == labels
                => before.push(end.since_request_open as nat),
            _ => before,
        }
    }
}

/// How many of the values are not above `upper`.
pub open spec fn within(values: Seq<nat>, upper: nat) -> nat
    decreases values.len(),
{
    if values.len() == 0 {
        0
    } else {
        within(values.drop_last(), upper) + (if values.last() <= upper {
            1nat
        } else {
            0nat
        })
    }
}

/// The sum of the values.
pub open spec fn sum(values: Seq<nat>) -> nat
    decreases values.len(),
{
    if values.len() == 0 {
        0
    } else {
        sum(values.drop_last()) + values.last()
    }
}

/// The number of values within a bound is that of the values that are not above
/// it, and the sum is that of all values.
pub proof fn law_within_and_sum(values: Seq<nat>, upper: nat)
    ensures
        within(values, upper) == values.filter(|value: nat| value <= upper).len(),
        sum(values) == values.fold_left(0nat, |total: nat, value: nat| total + value),
    decreases values.len(),
{
    reveal(Seq::filter);
    if values.len() > 0 {
        law_within_and_sum(values.drop_last(), upper);
    }
}

/// Whether a histogram says of `values` how many there are, how many are not
/// above each bound, and what their sum is.
pub open spec fn summarizes(
    histogram: HistogramView,
    bounds: Seq<BoundView>,
    values: Seq<nat>,
) -> bool {
    &&& histogram.counts.len() == bounds.len()
    &&& forall|i: int|
        0 <= i < bounds.len() ==> cumulative(histogram.counts, i + 1) == within(
            values,
            (#[trigger] bounds[i]).upper,
        )
    &&& histogram.total() == values.len()
    &&& histogram.sum == sum(values)
}

/// An empty histogram summarizes no values.
proof fn lemma_summarizes_empty(bounds: Seq<BoundView>)
    ensures
        summarizes(HistogramView::empty(bounds.len()), bounds, Seq::empty()),
{
    assert forall|i: int| 0 <= i < bounds.len() implies cumulative(
        HistogramView::empty(bounds.len()).counts,
        i + 1,
    ) == within(Seq::empty(), (#[trigger] bounds[i]).upper) by {
        lemma_empty_total(bounds.len(), i + 1);
    }
    lemma_empty_total(bounds.len(), bounds.len() as int);
}

/// Observing a value summarizes it too.
proof fn lemma_summarizes_observed(
    histogram: HistogramView,
    bounds: Seq<BoundView>,
    values: Seq<nat>,
    value: nat,
)
    requires
        cover(bounds),
        summarizes(histogram, bounds, values),
        value <= u64::MAX,
    ensures
        summarizes(histogram.observed(bounds, value), bounds, values.push(value)),
{
    let after = histogram.observed(bounds, value);
    assert(values.push(value).drop_last() =~= values);
    assert forall|i: int| 0 <= i < bounds.len() implies cumulative(after.counts, i + 1) == within(
        values.push(value),
        (#[trigger] bounds[i]).upper,
    ) by {
        law_observe(histogram, bounds, value, i);
    }
    law_observe_total(histogram, bounds, value);
}

/// Setting the value for labels sets it for these and for no others.
pub proof fn law_with_value<L, M>(
    values: Seq<(L, M)>,
    labels: L,
    value: M,
    other: L,
    fresh: M,
)
    requires
        distinct(values),
    ensures
        value_or(with_value(values, labels, value), labels, fresh) == value,
        contains(with_value(values, labels, value), labels),
        other != labels ==> value_or(with_value(values, labels, value), other, fresh) == value_or(
            values,
            other,
            fresh,
        ),
        other != labels ==> contains(with_value(values, labels, value), other) == contains(
            values,
            other,
        ),
{
    let after = with_value(values, labels, value);
    let at = if contains(values, labels) {
        position(values, labels)
    } else {
        values.len() as int
    };
    if contains(values, labels) {
        assert(is_at(values, at, labels));
    }
    assert(is_at(after, at, labels));
    let p = position(after, labels);
    assert(is_at(after, p, labels));
    if p != at {
        assert(is_at(values, p, labels));
        if p < at {
            assert(values[p].0 != values[at].0);
        } else {
            assert(values[at].0 != values[p].0);
        }
    }
    if other != labels {
        if contains(values, other) {
            let q = position(values, other);
            assert(is_at(values, q, other));
            assert(is_at(after, q, other));
            let r = position(after, other);
            assert(is_at(after, r, other));
            assert(is_at(values, r, other));
            if q < r {
                assert(values[q].0 != values[r].0);
            }
            if r < q {
                assert(values[r].0 != values[q].0);
            }
        } else {
            if contains(after, other) {
                let r = position(after, other);
                assert(is_at(after, r, other));
                assert(is_at(values, r, other));
            }
        }
    }
}

/// Labels that are distinct among counters are distinct among the histograms
/// that are paired with them.
proof fn lemma_paired_distinct<L>(
    counters: Seq<(L, nat)>,
    histograms: Seq<(L, HistogramView)>,
    bounds: Seq<BoundView>,
)
    requires
        distinct(counters),
        paired(counters, histograms, bounds),
    ensures
        distinct(histograms),
{
    assert forall|i: int, j: int| 0 <= i < j < histograms.len() implies (
    #[trigger] histograms[i]).0 != (#[trigger] histograms[j]).0 by {
        assert(counters[i].0 == histograms[i].0);
        assert(counters[j].0 == histograms[j].0);
        assert(counters[i].0 != counters[j].0);
    }
}

/// Metrics are consistent after any events: no labels occur twice, and every
/// counter is the count of its histograms.
pub proof fn law_always_consistent(
    env_labels: Option<Seq<char>>,
    bounds: Seq<BoundView>,
    events: Seq<Event>,
)
    requires
        cover(bounds),
    ensures
        MetricsView::empty(env_labels, bounds).recorded_all(events).consistent(),
        MetricsView::empty(env_labels, bounds).recorded_all(events).bounds == bounds,
    decreases events.len(),
{
    if events.len() > 0 {
        law_always_consistent(env_labels, bounds, events.drop_last());
        law_recorded_consistent(
            MetricsView::empty(env_labels, bounds).recorded_all(events.drop_last()),
            events.last(),
        );
    }
}

/// After any events, the counter of requests with some labels is the number of
/// finished requests with these labels, and the histogram of their durations
/// summarizes these durations. There is a counter exactly if there was such a
/// request, so every counter is at least one.
pub proof fn law_requests(
    env_labels: Option<Seq<char>>,
    bounds: Seq<BoundView>,
    events: Seq<Event>,
    labels: RequestLabelsView,
)
    requires
        cover(bounds),
    ensures
        ({
            let metrics = MetricsView::empty(env_labels, bounds).recorded_all(events);
            let durations = request_durations(events, labels);
            &&& value_or(metrics.request_total.values, labels, 0) == durations.len()
            &&& contains(metrics.request_total.values, labels) <==> durations.len() > 0
            &&& summarizes(
                histogram_or_empty(metrics.request_duration, bounds, labels),
                bounds,
                durations,
            )
        }),
    decreases events.len(),
{
    if events.len() == 0 {
        lemma_summarizes_empty(bounds);
    } else {
        let before = events.drop_last();
        let metrics = MetricsView::empty(env_labels, bounds).recorded_all(before);
        law_requests(env_labels, bounds, before, labels);
        law_always_consistent(env_labels, bounds, before);
        match events.last().observation() {
            Observation::Request { request, duration } => {
                let counters = metrics.request_total.values;
                let histograms = metrics.request_duration.values;
                let empty = HistogramView::empty(bounds.len());
                let histogram = value_or(histograms, request, empty);
                lemma_paired_distinct(counters, histograms, bounds);
                law_with_value(
                    counters,
                    request,
                    value_or(counters, request, 0) + 1,
                    labels,
                    0,
                );
                law_with_value(
                    histograms,
                    request,
                    histogram.observed(bounds, duration),
                    labels,
                    empty,
                );
                if request == labels {
                    lemma_summarizes_observed(
                        histogram,
                        bounds,
                        request_durations(before, labels),
                        duration,
                    );
                }
            },
            _ => {},
        }
    }
}

/// After any events, the counter of responses with some labels is the number
/// of finished responses with these labels, and the histograms of their
/// durations and latencies summarize these. There is a counter exactly if there
/// was such a response, so every counter is at least one.
pub proof fn law_responses(
    env_labels: Option<Seq<char>>,
    bounds: Seq<BoundView>,
    events: Seq<Event>,
    labels: ResponseLabelsView,
)
    requires
        cover(bounds),
    ensures
        ({
            let metrics = MetricsView::empty(env_labels, bounds).recorded_all(events);
            let durations = response_durations(events, labels);
            let latencies = response_latencies(events, labels);
            &&& value_or(metrics.response_total.values, labels, 0) == durations.len()
            &&& contains(metrics.response_total.values, labels) <==> durations.len() > 0
            &&& durations.len() == latencies.len()
            &&& summarizes(
                histogram_or_empty(metrics.response_duration, bounds, labels),
                bounds,
                durations,
            )
            &&& summarizes(
                histogram_or_empty(metrics.response_latency, bounds, labels),
                bounds,
                latencies,
            )
        }),
    decreases events.len(),
{
    if events.len() == 0 {
        lemma_summarizes_empty(bounds);
    } else {
        let before = events.drop_last();
        let metrics = MetricsView::empty(env_labels, bounds).recorded_all(before);
        law_responses(env_labels, bounds, before, labels);
        law_always_consistent(env_labels, bounds, before);
        match events.last().observation() {
            Observation::Response { response, duration, latency } => {
                let counters = metrics.response_total.values;
                let by_duration = metrics.response_duration.values;
                let by_latency = metrics.response_latency.values;
                let empty = HistogramView::empty(bounds.len());
                lemma_paired_distinct(counters, by_duration, bounds);
                lemma_paired_distinct(counters, by_latency, bounds);
                law_with_value(
                    counters,
                    response,
                    value_or(counters, response, 0) + 1,
                    labels,
                    0,
                );
                law_with_value(
                    by_duration,
                    response,
                    value_or(by_duration, response, empty).observed(bounds, duration),
                    labels,
                    empty,
                );
                law_with_value(
                    by_latency,
                    response,
                    value_or(by_latency, response, empty).observed(bounds, latency),
                    labels,
                    empty,
                );
                if response == labels {
                    lemma_summarizes_observed(
                        value_or(by_duration, response, empty),
                        bounds,
                        response_durations(before, labels),
                        duration,
                    );
                    lemma_summarizes_observed(
                        value_or(by_latency, response, empty),
                        bounds,
                        response_latencies(before, labels),
                        latency,
                    );
                }
            },
            _ => {},
        }
    }
}

/// Events on which a stream or a transport opens, or a transport closes, change
/// nothing.
pub proof fn law_only_finished_streams_count(metrics: MetricsView, event: Event)
    requires
        match event {
            Event::TransportOpen | Event::TransportClose => true,
            Event::StreamRequestOpen(_) | Event::StreamResponseOpen(_) => true,
            _ => false,
        },
    ensures
        metrics.recorded(event.observation()) == metrics,
{
}

/// Recording a request changes no metric of responses, and recording a response
/// none of requests.
pub proof fn law_requests_and_responses_apart(metrics: MetricsView, event: Event)
    ensures
        ({
            let after = metrics.recorded(event.observation());
            match event {
                Event::StreamRequestFail(_, _) | Event::StreamRequestEnd(_, _) => {
                    &&& after.response_total == metrics.response_total
                    &&& after.response_duration == metrics.response_duration
                    &&& after.response_latency == metrics.response_latency
                },
                Event::StreamResponseFail(_, _) | Event::StreamResponseEnd(_, _) => {
                    &&& after.request_total == metrics.request_total
                    &&& after.request_duration == metrics.request_duration
                },
                _ => true,
            }
        }),
{
}

/// Whether the label sets of `before` are in their places in `after`, and at
/// most one is new, at the end.
pub open spec fn same_order<L, M>(
    before: MetricView<L, M>,
    after: MetricView<L, M>,
) -> bool {
    &&& before.values.len() <= after.values.len() <= before.values.len() + 1
    &&& forall|i: int|
        0 <= i < before.values.len() ==> (#[trigger] after.values[i]).0 == before.values[i].0
}

/// Whether the name, the help and the labels from the environment are the same.
pub open spec fn same_description<L, M>(
    before: MetricView<L, M>,
    after: MetricView<L, M>,
) -> bool {
    &&& before.name == after.name
    &&& before.help == after.help
    &&& before.env_labels == after.env_labels
}

/// Whether no counter of `before` is lower in `after`.
pub open spec fn counters_grow<L>(before: MetricView<L, nat>, after: MetricView<L, nat>) -> bool {
    forall|i: int|
        0 <= i < before.values.len() ==> (#[trigger] after.values[i]).1 >= before.values[i].1
}

/// Whether no cumulative count and no sum of `before` is lower in `after`.
pub open spec fn grows(before: HistogramView, after: HistogramView) -> bool {
    &&& before.counts.len() == after.counts.len()
    &&& forall|n: int|
        0 <= n <= before.counts.len() ==> #[trigger] cumulative(after.counts, n) >= cumulative(
            before.counts,
            n,
        )
    &&& before.sum <= after.sum
}

/// Whether no histogram of `before` is lower in `after`.
pub open spec fn histograms_grow<L>(
    before: MetricView<L, HistogramView>,
    after: MetricView<L, HistogramView>,
) -> bool {
    forall|i: int|
        0 <= i < before.values.len() ==> grows(before.values[i].1, (#[trigger] after.values[i]).1)
}

impl MetricsView {
    /// Whether `after` has the label sets of these metrics in their places, with
    /// at most one new in each metric, at the end, no lower counter, and the
    /// same names, helps, labels from the environment and bounds.
    pub open spec fn kept_in(self, after: MetricsView) -> bool {
        &&& same_order(self.request_total, after.request_total)
        &&& same_order(self.request_duration, after.request_duration)
        &&& same_order(self.response_total, after.response_total)
        &&& same_order(self.response_duration, after.response_duration)
        &&& same_order(self.response_latency, after.response_latency)
        &&& same_description(self.request_total, after.request_total)
        &&& same_description(self.request_duration, after.request_duration)
        &&& same_description(self.response_total, after.response_total)
        &&& same_description(self.response_duration, after.response_duration)
        &&& same_description(self.response_latency, after.response_latency)
        &&& counters_grow(self.request_total, after.request_total)
        &&& counters_grow(self.response_total, after.response_total)
        &&& after.bounds == self.bounds
    }

    /// Whether no histogram is lower in `after`.
    pub open spec fn histograms_grow_in(self, after: MetricsView) -> bool {
        &&& histograms_grow(self.request_duration, after.request_duration)
        &&& histograms_grow(self.response_duration, after.response_duration)
        &&& histograms_grow(self.response_latency, after.response_latency)
    }
}

/// Setting a value moves no labels, and changes no other value.
proof fn lemma_with_value_order<L, M>(values: Seq<(L, M)>, labels: L, value: M)
    ensures
        values.len() <= with_value(values, labels, value).len() <= values.len() + 1,
        forall|i: int|
            0 <= i < values.len() ==> {
                &&& (#[trigger] with_value(values, labels, value)[i]).0 == values[i].0
                &&& with_value(values, labels, value)[i].1 == values[i].1 || (contains(
                    values,
                    labels,
                ) && i == position(values, labels) && with_value(values, labels, value)[i].1
                    == value)
            },
{
    if contains(values, labels) {
        assert(is_at(values, position(values, labels), labels));
    }
}

/// Counting keeps a metric.
proof fn lemma_incremented_kept<L>(metric: MetricView<L, nat>, labels: L)
    ensures
        same_order(metric, incremented(metric, labels)),
        same_description(metric, incremented(metric, labels)),
        counters_grow(metric, incremented(metric, labels)),
{
    lemma_with_value_order(
        metric.values,
        labels,
        value_or(metric.values, labels, 0) + 1,
    );
}

/// Measuring keeps a metric.
proof fn lemma_measured_kept<L>(
    metric: MetricView<L, HistogramView>,
    bounds: Seq<BoundView>,
    labels: L,
    value: nat,
)
    ensures
        same_order(metric, measured(metric, bounds, labels, value)),
        same_description(metric, measured(metric, bounds, labels, value)),
{
    lemma_with_value_order(
        metric.values,
        labels,
        histogram_or_empty(metric, bounds, labels).observed(bounds, value),
    );
}

/// Label sets keep the order in which they first came up, counters never fall,
/// and what metrics are called, the labels that they have from the environment
/// and the bounds of their histograms never change.
pub proof fn law_order_kept(metrics: MetricsView, event: Event)
    ensures
        metrics.kept_in(metrics.recorded(event.observation())),
{
    match event.observation() {
        Observation::Nothing => {},
        Observation::Request { request, duration } => {
            lemma_incremented_kept(metrics.request_total, request);
            lemma_measured_kept(metrics.request_duration, metrics.bounds, request, duration);
        },
        Observation::Response { response, duration, latency } => {
            lemma_incremented_kept(metrics.response_total, response);
            lemma_measured_kept(metrics.response_duration, metrics.bounds, response, duration);
            lemma_measured_kept(metrics.response_latency, metrics.bounds, response, latency);
        },
    }
}

/// Observing a value lowers nothing.
proof fn lemma_observed_grows(histogram: HistogramView, bounds: Seq<BoundView>, value: nat)
    requires
        cover(bounds),
        histogram.counts.len() == bounds.len(),
        value <= u64::MAX,
    ensures
        grows(histogram, histogram.observed(bounds, value)),
{
    let after = histogram.observed(bounds, value);
    law_observe_total(histogram, bounds, value);
    assert forall|n: int| 0 <= n <= histogram.counts.len() implies #[trigger] cumulative(
        after.counts,
        n,
    ) >= cumulative(histogram.counts, n) by {
        if n > 0 {
            law_observe(histogram, bounds, value, n - 1);
        }
    }
}

/// Measuring lowers nothing.
proof fn lemma_measured_grows<L>(
    counters: MetricView<L, nat>,
    histograms: MetricView<L, HistogramView>,
    bounds: Seq<BoundView>,
    labels: L,
    value: nat,
)
    requires
        cover(bounds),
        paired(counters.values, histograms.values, bounds),
        value <= u64::MAX,
    ensures
        histograms_grow(histograms, measured(histograms, bounds, labels, value)),
{
    let after = measured(histograms, bounds, labels, value);
    let histogram = histogram_or_empty(histograms, bounds, labels);
    lemma_with_value_order(histograms.values, labels, histogram.observed(bounds, value));
    assert forall|i: int| 0 <= i < histograms.values.len() implies grows(
        histograms.values[i].1,
        (#[trigger] after.values[i]).1,
    ) by {
        assert(counters.values[i].0 == histograms.values[i].0);
        lemma_observed_grows(histograms.values[i].1, bounds, value);
    }
}

/// The cumulative counts and the sums of histograms never fall.
pub proof fn law_histograms_never_fall(metrics: MetricsView, event: Event)
    requires
        metrics.consistent(),
    ensures
        metrics.histograms_grow_in(metrics.recorded(event.observation())),
{
    match event.observation() {
        Observation::Nothing => {},
        Observation::Request { request, duration } => {
            lemma_measured_grows(
                metrics.request_total,
                metrics.request_duration,
                metrics.bounds,
                request,
                duration,
            );
        },
        Observation::Response { response, duration, latency } => {
            lemma_measured_grows(
                metrics.response_total,
                metrics.response_duration,
                metrics.bounds,
                response,
                duration,
            );
            lemma_measured_grows(
                metrics.response_total,
                metrics.response_latency,
                metrics.bounds,
                response,
                latency,
            );
        },
    }
}

/// A request that failed is recorded like one that ended after as long.
pub proof fn law_failed_requests_alike(
    metrics: MetricsView,
    req: Request,
    fail: StreamRequestFail,
    end: StreamRequestEnd,
)
    requires
        end.since_request_open == fail.since_request_open,
    ensures
        ({
            let failed = Event::StreamRequestFail(req, fail).observation();
            let ended = Event::StreamRequestEnd(req, end).observation();
            &&& metrics.recorded(failed) == metrics.recorded(ended)
            &&& metrics.has_room(failed) == metrics.has_room(ended)
        }),
{
}

/// A response that failed is recorded like one that ended after as long and
/// without a gRPC status.
pub proof fn law_failed_responses_alike(
    metrics: MetricsView,
    res: Response,
    fail: StreamResponseFail,
    end: StreamResponseEnd,
)
    requires
        end.grpc_status is None,
        end.since_response_open == fail.since_response_open,
        end.since_request_open == fail.since_request_open,
    ensures
        ({
            let failed = Event::StreamResponseFail(res, fail).observation();
            let ended = Event::StreamResponseEnd(res, end).observation();
            &&& metrics.recorded(failed) == metrics.recorded(ended)
            &&& metrics.has_room(failed) == metrics.has_room(ended)
        }),
{
}

/// Whether `number` returns one text for each number.
pub open spec fn one_text_each<N, F: Fn(N) -> String>(number: F) -> bool {
    forall|n: N, a: String, b: String|
        #![trigger call_ensures(number, (n,), a), call_ensures(number, (n,), b)]
        call_ensures(number, (n,), a) && call_ensures(number, (n,), b) ==> a@ == b@
}

/// Texts that one function returns for the same numbers are the same.
proof fn lemma_formatted_same<N, F: Fn(N) -> String>(
    number: F,
    numbers: Seq<N>,
    a: Seq<String>,
    b: Seq<String>,
)
    requires
        one_text_each(number),
        formatted(number, numbers, a),
        formatted(number, numbers, b),
    ensures
        a.len() == b.len(),
        forall|i: int| 0 <= i < a.len() ==> (#[trigger] a[i])@ == b[i]@,
{
    assert forall|i: int| 0 <= i < a.len() implies (#[trigger] a[i])@ == b[i]@ by {
        assert(call_ensures(number, (numbers[i],), a[i]));
        assert(call_ensures(number, (numbers[i],), b[i]));
    }
}

/// The lines of counters depend on the texts of their numbers alone.
proof fn lemma_counters_same<L: LabelSet>(
    metric: MetricView<L::V, nat>,
    a: Seq<String>,
    b: Seq<String>,
    n: int,
)
    requires
        n <= a.len(),
        forall|i: int| 0 <= i < a.len() ==> (#[trigger] a[i])@ == b[i]@,
    ensures
        Metric::<Counter, L>::samples_text(metric, a, n) == Metric::<Counter, L>::samples_text(
            metric,
            b,
            n,
        ),
    decreases n,
{
    if n > 0 {
        lemma_counters_same::<L>(metric, a, b, n - 1);
        assert(a[n - 1]@ == b[n - 1]@);
    }
}

/// The lines of histograms depend on the texts of their sums alone.
proof fn lemma_histograms_same<L: LabelSet>(
    metric: MetricView<L::V, HistogramView>,
    bounds: Seq<BoundView>,
    a: Seq<String>,
    b: Seq<String>,
    n: int,
)
    requires
        n <= a.len(),
        forall|i: int| 0 <= i < a.len() ==> (#[trigger] a[i])@ == b[i]@,
    ensures
        Metric::<Histogram, L>::samples_text(metric, bounds, a, n) == Metric::<
            Histogram,
            L,
        >::samples_text(metric, bounds, b, n),
    decreases n,
{
    if n > 0 {
        lemma_histograms_same::<L>(metric, bounds, a, b, n - 1);
        assert(a[n - 1]@ == b[n - 1]@);
    }
}

/// Texts of numbers that the same functions return make up the same text.
proof fn lemma_text_same<F: Fn(u64) -> String, G: Fn(u128) -> String>(
    metrics: MetricsView,
    count: F,
    sum_in_ms: G,
    a: Numbers,
    b: Numbers,
)
    requires
        one_text_each(count),
        one_text_each(sum_in_ms),
        metrics.formatted_by(count, sum_in_ms, a),
        metrics.formatted_by(count, sum_in_ms, b),
    ensures
        metrics.text(a) == metrics.text(b),
{
    let total = metrics.request_total;
    lemma_formatted_same(count, counts(total.values), a.request_total@, b.request_total@);
    lemma_counters_same::<RequestLabels>(
        total,
        a.request_total@,
        b.request_total@,
        total.values.len() as int,
    );
    let duration = metrics.request_duration;
    lemma_formatted_same(
        sum_in_ms,
        sums(duration.values),
        a.request_duration@,
        b.request_duration@,
    );
    lemma_histograms_same::<RequestLabels>(
        duration,
        metrics.bounds,
        a.request_duration@,
        b.request_duration@,
        duration.values.len() as int,
    );
    let total = metrics.response_total;
    lemma_formatted_same(count, counts(total.values), a.response_total@, b.response_total@);
    lemma_counters_same::<ResponseLabels>(
        total,
        a.response_total@,
        b.response_total@,
        total.values.len() as int,
    );
    let duration = metrics.response_duration;
    lemma_formatted_same(
        sum_in_ms,
        sums(duration.values),
        a.response_duration@,
        b.response_duration@,
    );
    lemma_histograms_same::<ResponseLabels>(
        duration,
        metrics.bounds,
        a.response_duration@,
        b.response_duration@,
        duration.values.len() as int,
    );
    let latency = metrics.response_latency;
    lemma_formatted_same(
        sum_in_ms,
        sums(latency.values),
        a.response_latency@,
        b.response_latency@,
    );
    lemma_histograms_same::<ResponseLabels>(
        latency,
        metrics.bounds,
        a.response_latency@,
        b.response_latency@,
        latency.values.len() as int,
    );
}

/// Serving changes nothing: two requests for the same path, with nothing
/// recorded between them, have the same answer, where numbers have one text
/// each.
pub proof fn law_same_answer<F: Fn(u64) -> String, G: Fn(u128) -> String>(
    metrics: MetricsView,
    path: Seq<char>,
    count: F,
    sum_in_ms: G,
    first: ReplyView,
    second: ReplyView,
)
    requires
        one_text_each(count),
        one_text_each(sum_in_ms),
        answers(metrics, path, count, sum_in_ms, first),
        answers(metrics, path, count, sum_in_ms, second),
    ensures
        first == second,
{
    if path == METRICS_PATH@ {
        let a = choose|numbers: Numbers| #[trigger]
            metrics.formatted_by(count, sum_in_ms, numbers) && first->body == metrics.text(numbers);
        let b = choose|numbers: Numbers| #[trigger]
            metrics.formatted_by(count, sum_in_ms, numbers) && second->body == metrics.text(
                numbers,
            );
        lemma_text_same(metrics, count, sum_in_ms, a, b);
    }
}

/// After any events, every metric has the labels from the environment that the
/// metrics were made with.
pub proof fn law_environment_everywhere(
    env_labels: Option<Seq<char>>,
    bounds: Seq<BoundView>,
    events: Seq<Event>,
)
    ensures
        ({
            let metrics = MetricsView::empty(env_labels, bounds).recorded_all(events);
            &&& metrics.request_total.env_labels == env_labels
            &&& metrics.request_duration.env_labels == env_labels
            &&& metrics.response_total.env_labels == env_labels
            &&& metrics.response_duration.env_labels == env_labels
            &&& metrics.response_latency.env_labels == env_labels
        }),
    decreases events.len(),
{
    if events.len() > 0 {
        law_environment_everywhere(env_labels, bounds, events.drop_last());
    }
}

/// The counts that are printed for the buckets of a histogram do not decrease,
/// and the last of them is its count.
pub proof fn law_buckets_cumulative(
    histogram: HistogramView,
    bounds: Seq<BoundView>,
    i: int,
    j: int,
)
    requires
        histogram.counts.len() == bounds.len(),
        1 <= i <= j <= bounds.len(),
    ensures
        cumulative(histogram.counts, i) <= cumulative(histogram.counts, j),
        cumulative(histogram.counts, bounds.len() as int) == histogram.total(),
{
    lemma_cumulative_monotonic(histogram.counts, i, j);
}

/// The labels of a destination print as nothing exactly when nothing is known
/// of it.
pub proof fn law_empty_destination(labels: OutboundLabelsView)
    ensures
        labels.is_empty() <==> labels.text() == Seq::<char>::empty(),
{
    reveal_strlit("dst_namespace=\"");
    reveal_strlit("dst_");
    if !labels.is_empty() {
        assert(labels.text().len() > 0);
    }
}

/// Whether `part` is somewhere in `whole`.
pub open spec fn appears(part: Seq<char>, whole: Seq<char>) -> bool {
    exists|before: Seq<char>, after: Seq<char>| whole == #[trigger] (before + part + after)
}

/// What appears in a text appears in a longer one.
pub(crate) proof fn lemma_appears(part: Seq<char>, before: Seq<char>, whole: Seq<char>, after: Seq<char>)
    requires
        appears(part, whole),
    ensures
        appears(part, before + whole + after),
{
    let (b, a) = choose|b: Seq<char>, a: Seq<char>| whole == #[trigger] (b + part + a);
    assert(before + whole + after =~= (before + b) + part + (a + after));
}

/// A text appears in itself.
proof fn lemma_appears_itself(part: Seq<char>)
    ensures
        appears(part, part),
{
    assert(part =~= Seq::<char>::empty() + part + Seq::<char>::empty());
}

/// Every counter has its line in the text of a metric.
pub proof fn law_counters_served<L: LabelSet>(
    metric: MetricView<L::V, nat>,
    numbers: Seq<String>,
    i: int,
)
    requires
        0 <= i < metric.values.len(),
    ensures
        counter_shown::<L>(metric, numbers, i, Metric::<Counter, L>::text(metric, numbers)),
{
    let n = metric.values.len() as int;
    let samples = Metric::<Counter, L>::samples_text(metric, numbers, n);
    lemma_counter_appears::<L>(metric, numbers, i, n);
    let line = metric.sample(Seq::empty(), L::text(metric.values[i].0), None, numbers[i]@);
    lemma_appears(line, metric.header("counter"@), samples, Seq::empty());
    assert(metric.header("counter"@) + samples + Seq::<char>::empty() =~= metric.header(
        "counter"@,
    ) + samples);
}

/// Every counter among the first `n` has its line among theirs.
proof fn lemma_counter_appears<L: LabelSet>(
    metric: MetricView<L::V, nat>,
    numbers: Seq<String>,
    i: int,
    n: int,
)
    requires
        0 <= i < n <= metric.values.len(),
    ensures
        appears(
            metric.sample(Seq::empty(), L::text(metric.values[i].0), None, numbers[i]@),
            Metric::<Counter, L>::samples_text(metric, numbers, n),
        ),
    decreases n,
{
    let line = metric.sample(Seq::empty(), L::text(metric.values[i].0), None, numbers[i]@);
    let last = metric.sample(Seq::empty(), L::text(metric.values[n - 1].0), None, numbers[n - 1]@);
    let before = Metric::<Counter, L>::samples_text(metric, numbers, n - 1);
    if i == n - 1 {
        lemma_appears_itself(line);
        lemma_appears(line, before, line, Seq::empty());
        assert(before + line + Seq::<char>::empty() =~= before + line);
    } else {
        lemma_counter_appears::<L>(metric, numbers, i, n - 1);
        lemma_appears(line, Seq::empty(), before, last);
        assert(Seq::<char>::empty() + before + last =~= before + last);
    }
}

/// Every histogram has its lines in the text of a metric.
pub proof fn law_histograms_served<L: LabelSet>(
    metric: MetricView<L::V, HistogramView>,
    bounds: Seq<BoundView>,
    numbers: Seq<String>,
    i: int,
)
    requires
        0 <= i < metric.values.len(),
    ensures
        histogram_shown::<L>(
            metric,
            bounds,
            numbers,
            i,
            Metric::<Histogram, L>::text(metric, bounds, numbers),
        ),
{
    let n = metric.values.len() as int;
    let samples = Metric::<Histogram, L>::samples_text(metric, bounds, numbers, n);
    lemma_histogram_appears::<L>(metric, bounds, numbers, i, n);
    let lines = Metric::<Histogram, L>::histogram_text(metric, bounds, i, numbers[i]@);
    lemma_appears(lines, metric.header("histogram"@), samples, Seq::empty());
    assert(metric.header("histogram"@) + samples + Seq::<char>::empty() =~= metric.header(
        "histogram"@,
    ) + samples);
}

/// Every histogram among the first `n` has its lines among theirs.
proof fn lemma_histogram_appears<L: LabelSet>(
    metric: MetricView<L::V, HistogramView>,
    bounds: Seq<BoundView>,
    numbers: Seq<String>,
    i: int,
    n: int,
)
    requires
        0 <= i < n <= metric.values.len(),
    ensures
        appears(
            Metric::<Histogram, L>::histogram_text(metric, bounds, i, numbers[i]@),
            Metric::<Histogram, L>::samples_text(metric, bounds, numbers, n),
        ),
    decreases n,
{
    let lines = Metric::<Histogram, L>::histogram_text(metric, bounds, i, numbers[i]@);
    let last = Metric::<Histogram, L>::histogram_text(metric, bounds, n - 1, numbers[n - 1]@);
    let before = Metric::<Histogram, L>::samples_text(metric, bounds, numbers, n - 1);
    if i == n - 1 {
        lemma_appears_itself(lines);
        lemma_appears(lines, before, lines, Seq::empty());
        assert(before + lines + Seq::<char>::empty() =~= before + lines);
    } else {
        lemma_histogram_appears::<L>(metric, bounds, numbers, i, n - 1);
        lemma_appears(lines, Seq::empty(), before, last);
        assert(Seq::<char>::empty() + before + last =~= before + last);
    }
}

/// What appears in what appears in a text appears in the text.
pub(crate) proof fn lemma_appears_transitive(part: Seq<char>, middle: Seq<char>, whole: Seq<char>)
    requires
        appears(part, middle),
        appears(middle, whole),
    ensures
        appears(part, whole),
{
    let (before, after) = choose|before: Seq<char>, after: Seq<char>|
        whole == #[trigger] (before + middle + after);
    lemma_appears(part, before, middle, after);
}

/// The text of every metric is in the text of the metrics.
pub proof fn law_metrics_served(metrics: MetricsView, numbers: Numbers)
    ensures
        appears(
            Metric::<Counter, RequestLabels>::text(
                metrics.request_total,
                numbers.request_total@,
            ),
            metrics.text(numbers),
        ),
        appears(
            Metric::<Histogram, RequestLabels>::text(
                metrics.request_duration,
                metrics.bounds,
                numbers.request_duration@,
            ),
            metrics.text(numbers),
        ),
        appears(
            Metric::<Counter, ResponseLabels>::text(
                metrics.response_total,
                numbers.response_total@,
            ),
            metrics.text(numbers),
        ),
        appears(
            Metric::<Histogram, ResponseLabels>::text(
                metrics.response_duration,
                metrics.bounds,
                numbers.response_duration@,
            ),
            metrics.text(numbers),
        ),
        appears(
            Metric::<Histogram, ResponseLabels>::text(
                metrics.response_latency,
                metrics.bounds,
                numbers.response_latency@,
            ),
            metrics.text(numbers),
        ),
{
    let a = Metric::<Counter, RequestLabels>::text(metrics.request_total, numbers.request_total@);
    let b = Metric::<Histogram, RequestLabels>::text(
        metrics.request_duration,
        metrics.bounds,
        numbers.request_duration@,
    );
    let c = Metric::<Counter, ResponseLabels>::text(
        metrics.response_total,
        numbers.response_total@,
    );
    let d = Metric::<Histogram, ResponseLabels>::text(
        metrics.response_duration,
        metrics.bounds,
        numbers.response_duration@,
    );
    let e = Metric::<Histogram, ResponseLabels>::text(
        metrics.response_latency,
        metrics.bounds,
        numbers.response_latency@,
    );
    lemma_sections(a, b, c, d, e, "\n"@);
}

/// Each of five texts is in the one that they make up.
proof fn lemma_sections(
    a: Seq<char>,
    b: Seq<char>,
    c: Seq<char>,
    d: Seq<char>,
    e: Seq<char>,
    nl: Seq<char>,
)
    ensures
        appears(a, a + nl + b + nl + c + nl + d + nl + e),
        appears(b, a + nl + b + nl + c + nl + d + nl + e),
        appears(c, a + nl + b + nl + c + nl + d + nl + e),
        appears(d, a + nl + b + nl + c + nl + d + nl + e),
        appears(e, a + nl + b + nl + c + nl + d + nl + e),
{
    let empty = Seq::<char>::empty();
    let ab = a + nl + b;
    let abc = ab + nl + c;
    let abcd = abc + nl + d;
    let whole = abcd + nl + e;
    assert(ab =~= empty + a + (nl + b));
    assert(ab =~= (a + nl) + b + empty);
    assert(abc =~= empty + ab + (nl + c));
    assert(abc =~= (ab + nl) + c + empty);
    assert(abcd =~= empty + abc + (nl + d));
    assert(abcd =~= (abc + nl) + d + empty);
    assert(whole =~= empty + abcd + (nl + e));
    assert(whole =~= (abcd + nl) + e + empty);
    lemma_appears_transitive(d, abcd, whole);
    lemma_appears_transitive(abc, abcd, whole);
    lemma_appears_transitive(c, abc, whole);
    lemma_appears_transitive(ab, abc, whole);
    lemma_appears_transitive(b, ab, whole);
    lemma_appears_transitive(a, ab, whole);
}

/// Whether counter `i` has its line in `whole`.
pub open spec fn counter_shown<L: LabelSet>(
    metric: MetricView<L::V, nat>,
    numbers: Seq<String>,
    i: int,
    whole: Seq<char>,
) -> bool {
    appears(
        metric.sample(Seq::empty(), L::text(metric.values[i].0), None, numbers[i]@),
        whole,
    )
}

/// Whether histogram `i` has its lines in `whole`.
pub open spec fn histogram_shown<L: LabelSet>(
    metric: MetricView<L::V, HistogramView>,
    bounds: Seq<BoundView>,
    numbers: Seq<String>,
    i: int,
    whole: Seq<char>,
) -> bool {
    appears(Metric::<Histogram, L>::histogram_text(metric, bounds, i, numbers[i]@), whole)
}

/// What is recorded is served: after a request has finished, the text of the
/// metrics has a line for the counter of its labels, which has gone up by one,
/// and the lines of the histogram in which its duration was observed.
pub proof fn law_request_served(metrics: MetricsView, event: Event, numbers: Numbers)
    requires
        metrics.consistent(),
        event.observation() is Request,
    ensures
        ({
            let labels = event.observation()->request;
            let duration = event.observation()->Request_duration;
            let before = histogram_or_empty(metrics.request_duration, metrics.bounds, labels);
            let after = metrics.recorded(event.observation());
            exists|i: int|
                {
                    &&& #[trigger] is_at(after.request_total.values, i, labels)
                    &&& is_at(after.request_duration.values, i, labels)
                    &&& after.request_total.values[i].1 == value_or(
                        metrics.request_total.values,
                        labels,
                        0,
                    ) + 1
                    &&& after.request_duration.values[i].1 == before.observed(
                        metrics.bounds,
                        duration,
                    )
                    &&& counter_shown::<RequestLabels>(
                        after.request_total,
                        numbers.request_total@,
                        i,
                        after.text(numbers),
                    )
                    &&& histogram_shown::<RequestLabels>(
                        after.request_duration,
                        after.bounds,
                        numbers.request_duration@,
                        i,
                        after.text(numbers),
                    )
                }
        }),
{
    let labels = event.observation()->request;
    let after = metrics.recorded(event.observation());
    let i = lemma_recorded_at(
        metrics.request_total,
        metrics.request_duration,
        metrics.bounds,
        labels,
        event.observation()->Request_duration,
    );
    law_metrics_served(after, numbers);
    lemma_counter_shown::<RequestLabels>(
        after.request_total,
        numbers.request_total@,
        i,
        after.text(numbers),
    );
    lemma_histogram_shown::<RequestLabels>(
        after.request_duration,
        after.bounds,
        numbers.request_duration@,
        i,
        after.text(numbers),
    );
}

/// What is recorded is served: after a response has finished, the text of the
/// metrics has a line for the counter of its labels, which has gone up by one,
/// and the lines of the histograms in which its duration and its latency were
/// observed.
pub proof fn law_response_served(metrics: MetricsView, event: Event, numbers: Numbers)
    requires
        metrics.consistent(),
        event.observation() is Response,
    ensures
        ({
            let labels = event.observation()->response;
            let duration = event.observation()->Response_duration;
            let latency = event.observation()->latency;
            let by_duration = histogram_or_empty(
                metrics.response_duration,
                metrics.bounds,
                labels,
            );
            let by_latency = histogram_or_empty(metrics.response_latency, metrics.bounds, labels);
            let after = metrics.recorded(event.observation());
            exists|i: int|
                {
                    &&& #[trigger] is_at(after.response_total.values, i, labels)
                    &&& is_at(after.response_duration.values, i, labels)
                    &&& is_at(after.response_latency.values, i, labels)
                    &&& after.response_total.values[i].1 == value_or(
                        metrics.response_total.values,
                        labels,
                        0,
                    ) + 1
                    &&& after.response_duration.values[i].1 == by_duration.observed(
                        metrics.bounds,
                        duration,
                    )
                    &&& after.response_latency.values[i].1 == by_latency.observed(
                        metrics.bounds,
                        latency,
                    )
                    &&& counter_shown::<ResponseLabels>(
                        after.response_total,
                        numbers.response_total@,
                        i,
                        after.text(numbers),
                    )
                    &&& histogram_shown::<ResponseLabels>(
                        after.response_duration,
                        after.bounds,
                        numbers.response_duration@,
                        i,
                        after.text(numbers),
                    )
                    &&& histogram_shown::<ResponseLabels>(
                        after.response_latency,
                        after.bounds,
                        numbers.response_latency@,
                        i,
                        after.text(numbers),
                    )
                }
        }),
{
    let labels = event.observation()->response;
    let after = metrics.recorded(event.observation());
    let i = lemma_recorded_at(
        metrics.response_total,
        metrics.response_duration,
        metrics.bounds,
        labels,
        event.observation()->Response_duration,
    );
    let j = lemma_recorded_at(
        metrics.response_total,
        metrics.response_latency,
        metrics.bounds,
        labels,
        event.observation()->latency,
    );
    law_metrics_served(after, numbers);
    lemma_counter_shown::<ResponseLabels>(
        after.response_total,
        numbers.response_total@,
        i,
        after.text(numbers),
    );
    lemma_histogram_shown::<ResponseLabels>(
        after.response_duration,
        after.bounds,
        numbers.response_duration@,
        i,
        after.text(numbers),
    );
    lemma_histogram_shown::<ResponseLabels>(
        after.response_latency,
        after.bounds,
        numbers.response_latency@,
        j,
        after.text(numbers),
    );
}

/// A counter is shown where its metric is.
proof fn lemma_counter_shown<L: LabelSet>(
    metric: MetricView<L::V, nat>,
    numbers: Seq<String>,
    i: int,
    whole: Seq<char>,
)
    requires
        0 <= i < metric.values.len(),
        appears(Metric::<Counter, L>::text(metric, numbers), whole),
    ensures
        counter_shown::<L>(metric, numbers, i, whole),
{
    law_counters_served::<L>(metric, numbers, i);
    lemma_appears_transitive(
        metric.sample(Seq::empty(), L::text(metric.values[i].0), None, numbers[i]@),
        Metric::<Counter, L>::text(metric, numbers),
        whole,
    );
}

/// A histogram is shown where its metric is.
proof fn lemma_histogram_shown<L: LabelSet>(
    metric: MetricView<L::V, HistogramView>,
    bounds: Seq<BoundView>,
    numbers: Seq<String>,
    i: int,
    whole: Seq<char>,
)
    requires
        0 <= i < metric.values.len(),
        appears(Metric::<Histogram, L>::text(metric, bounds, numbers), whole),
    ensures
        histogram_shown::<L>(metric, bounds, numbers, i, whole),
{
    law_histograms_served::<L>(metric, bounds, numbers, i);
    lemma_appears_transitive(
        Metric::<Histogram, L>::histogram_text(metric, bounds, i, numbers[i]@),
        Metric::<Histogram, L>::text(metric, bounds, numbers),
        whole,
    );
}

/// Where the counter and the histogram are that were changed.
proof fn lemma_recorded_at<L>(
    counters: MetricView<L, nat>,
    histograms: MetricView<L, HistogramView>,
    bounds: Seq<BoundView>,
    labels: L,
    value: nat,
) -> (i: int)
    requires
        distinct(counters.values),
        paired(counters.values, histograms.values, bounds),
    ensures
        is_at(incremented(counters, labels).values, i, labels),
        is_at(measured(histograms, bounds, labels, value).values, i, labels),
        i == (if contains(counters.values, labels) {
            position(counters.values, labels)
        } else {
            counters.values.len() as int
        }),
        incremented(counters, labels).values[i].1 == value_or(counters.values, labels, 0) + 1,
        measured(histograms, bounds, labels, value).values[i].1 == histogram_or_empty(
            histograms,
            bounds,
            labels,
        ).observed(bounds, value),
{
    lemma_paired_position(counters.values, histograms.values, bounds, labels);
    if contains(counters.values, labels) {
        position(counters.values, labels)
    } else {
        counters.values.len() as int
    }
}

} // verus!

//! The metrics of the proxy.
use crate::event::Event;
use crate::labels::{LabelSet, RequestLabels, RequestLabelsView, ResponseLabels, ResponseLabelsView};
use crate::latency::{
    cover, law_observe_total, lemma_empty_total, BoundView, BucketBounds, Histogram, HistogramView,
};
use crate::metric::{
    contains, counts, distinct, env_view, formatted, is_at, lemma_with_value_distinct, position,
    sums, value_or, with_value, Counter, Metric, MetricView,
};
use crate::recording::{can_record, law_can_record};
use crate::text::lemma_append;
use std::sync::Arc;
use vstd::prelude::*;

verus! {

pub const REQUEST_TOTAL: &'static str = "request_total";

pub const REQUEST_TOTAL_HELP: &'static str =
    "A counter of the number of requests the proxy has received.";

pub const REQUEST_DURATION: &'static str = "request_duration_ms";

pub const REQUEST_DURATION_HELP: &'static str =
    "A histogram of the duration of a request. This is measured from \
     when the request headers are received to when the request \
     stream has completed.";

pub const RESPONSE_TOTAL: &'static str = "response_total";

pub const RESPONSE_TOTAL_HELP: &'static str =
    "A counter of the number of responses the proxy has received.";

pub const RESPONSE_DURATION: &'static str = "response_duration_ms";

pub const RESPONSE_DURATION_HELP: &'static str =
    "A histogram of the duration of a response. This is measured from \
     when the response headers are received to when the response \
     stream has completed.";

pub const RESPONSE_LATENCY: &'static str = "response_latency_ms";

pub const RESPONSE_LATENCY_HELP: &'static str =
    "A histogram of the total latency of a response. This is measured \
     from when the request headers are received to when the response \
     stream has completed.";

/// What is to be recorded of an event.
pub enum Observation {
    /// Nothing.
    Nothing,
    /// A request, and how long it took.
    Request { request: RequestLabelsView, duration: nat },
    /// A response, how long it took, and how long it took from the request on.
    Response { response: ResponseLabelsView, duration: nat, latency: nat },
}

impl Event {
    /// What is to be recorded of the event: nothing when a stream opens, since
    /// metrics are recorded when it finishes, and nothing of transports.
    pub open spec fn observation(self) -> Observation {
        match self {
            Event::TransportOpen | Event::TransportClose => Observation::Nothing,
            Event::StreamRequestOpen(_) | Event::StreamResponseOpen(_) => Observation::Nothing,
            Event::StreamRequestFail(req, fail) => Observation::Request {
                request: RequestLabelsView::of(req),
                duration: fail.since_request_open as nat,
            },
            Event::StreamRequestEnd(req, end) => Observation::Request {
                request: RequestLabelsView::of(req),
                duration: end.since_request_open as nat,
            },
            Event::StreamResponseFail(res, fail) => Observation::Response {
                response: ResponseLabelsView::of(res, None),
                duration: fail.since_response_open as nat,
                latency: fail.since_request_open as nat,
            },
            Event::StreamResponseEnd(res, end) => Observation::Response {
                response: ResponseLabelsView::of(res, end.grpc_status),
                duration: end.since_response_open as nat,
                latency: end.since_request_open as nat,
            },
        }
    }
}

impl Event {
    /// Whether there is something to be recorded of the event.
    pub fn is_recorded(&self) -> (recorded: bool)
        ensures
            recorded == !(self.observation() is Nothing),
            recorded <==> (self is StreamRequestFail || self is StreamRequestEnd
                || self is StreamResponseFail || self is StreamResponseEnd),
    {
        match self {
            Event::TransportOpen | Event::TransportClose => false,
            Event::StreamRequestOpen(_) | Event::StreamResponseOpen(_) => false,
            Event::StreamRequestFail(_, _) | Event::StreamRequestEnd(_, _) => true,
            Event::StreamResponseFail(_, _) | Event::StreamResponseEnd(_, _) => true,
        }
    }
}

/// A counter metric after the counter for `labels` has gone up by one.
pub open spec fn incremented<L>(metric: MetricView<L, nat>, labels: L) -> MetricView<L, nat> {
    MetricView {
        values: with_value(metric.values, labels, value_or(metric.values, labels, 0) + 1),
        ..metric
    }
}

/// The histogram for `labels`, which is empty where there is none.
pub open spec fn histogram_or_empty<L>(
    metric: MetricView<L, HistogramView>,
    bounds: Seq<BoundView>,
    labels: L,
) -> HistogramView {
    value_or(metric.values, labels, HistogramView::empty(bounds.len()))
}

/// A histogram metric after `value` was observed in the histogram for `labels`.
pub open spec fn measured<L>(
    metric: MetricView<L, HistogramView>,
    bounds: Seq<BoundView>,
    labels: L,
    value: nat,
) -> MetricView<L, HistogramView> {
    MetricView {
        values: with_value(
            metric.values,
            labels,
            histogram_or_empty(metric, bounds, labels).observed(bounds, value),
        ),
        ..metric
    }
}

/// Another handle to the labels from the environment.
fn clone_env(env_labels: &Option<Arc<str>>) -> (clone: Option<Arc<str>>)
    ensures
        env_view(clone) == env_view(*env_labels),
{
    match env_labels {
        Some(env_labels) => Some(env_labels.clone()),
        None => None,
    }
}

/// Whether counters and histograms have the same labels in the same order, and
/// each counter is the number of values observed in its histogram, whose sum is
/// one of as many values.
pub open spec fn paired<L>(
    counters: Seq<(L, nat)>,
    histograms: Seq<(L, HistogramView)>,
    bounds: Seq<BoundView>,
) -> bool {
    &&& counters.len() == histograms.len()
    &&& forall|i: int|
        0 <= i < counters.len() ==> {
            &&& (#[trigger] counters[i]).0 == (#[trigger] histograms[i]).0
            &&& histograms[i].1.counts.len() == bounds.len()
            &&& histograms[i].1.total() == counters[i].1
            &&& histograms[i].1.sum <= counters[i].1 * u64::MAX
        }
}

/// The metrics.
#[derive(Debug)]
pub struct Metrics {
    bounds: BucketBounds,
    request_total: Metric<Counter, RequestLabels>,
    request_duration: Metric<Histogram, RequestLabels>,
    response_total: Metric<Counter, ResponseLabels>,
    response_duration: Metric<Histogram, ResponseLabels>,
    response_latency: Metric<Histogram, ResponseLabels>,
}

/// The value of `Metrics`.
#[verifier::ext_equal]
pub struct MetricsView {
    /// The bounds of the buckets of all histograms.
    pub bounds: Seq<BoundView>,
    pub request_total: MetricView<RequestLabelsView, nat>,
    pub request_duration: MetricView<RequestLabelsView, HistogramView>,
    pub response_total: MetricView<ResponseLabelsView, nat>,
    pub response_duration: MetricView<ResponseLabelsView, HistogramView>,
    pub response_latency: MetricView<ResponseLabelsView, HistogramView>,
}

impl View for Metrics {
    type V = MetricsView;

    closed spec fn view(&self) -> MetricsView {
        MetricsView {
            bounds: self.bounds@,
            request_total: self.request_total@,
            request_duration: self.request_duration@,
            response_total: self.response_total@,
            response_duration: self.response_duration@,
            response_latency: self.response_latency@,
        }
    }
}

/// A metric without values.
pub open spec fn empty_metric<L, M>(
    name: Seq<char>,
    help: Seq<char>,
    env_labels: Option<Seq<char>>,
) -> MetricView<L, M> {
    MetricView { name, help, env_labels, values: Seq::empty() }
}

impl MetricsView {
    /// Metrics of which nothing was recorded.
    pub open spec fn empty(env_labels: Option<Seq<char>>, bounds: Seq<BoundView>) -> MetricsView {
        MetricsView {
            bounds,
            request_total: empty_metric(REQUEST_TOTAL@, REQUEST_TOTAL_HELP@, env_labels),
            request_duration: empty_metric(REQUEST_DURATION@, REQUEST_DURATION_HELP@, env_labels),
            response_total: empty_metric(RESPONSE_TOTAL@, RESPONSE_TOTAL_HELP@, env_labels),
            response_duration: empty_metric(
                RESPONSE_DURATION@,
                RESPONSE_DURATION_HELP@,
                env_labels,
            ),
            response_latency: empty_metric(RESPONSE_LATENCY@, RESPONSE_LATENCY_HELP@, env_labels),
        }
    }

    /// The metrics after an observation was recorded.
    pub open spec fn recorded(self, observation: Observation) -> MetricsView {
        match observation {
            Observation::Nothing => self,
            Observation::Request { request: labels, duration } => MetricsView {
                request_total: incremented(self.request_total, labels),
                request_duration: measured(self.request_duration, self.bounds, labels, duration),
                ..self
            },
            Observation::Response { response: labels, duration, latency } => MetricsView {
                response_total: incremented(self.response_total, labels),
                response_duration: measured(self.response_duration, self.bounds, labels, duration),
                response_latency: measured(self.response_latency, self.bounds, labels, latency),
                ..self
            },
        }
    }

    /// Whether the observation can be recorded without a counter passing the
    /// largest number that it can hold.
    pub open spec fn has_room(self, observation: Observation) -> bool {
        match observation {
            Observation::Nothing => true,
            Observation::Request { request, .. } => value_or(
                self.request_total.values,
                request,
                0,
            ) < u64::MAX,
            Observation::Response { response, .. } => value_or(
                self.response_total.values,
                response,
                0,
            ) < u64::MAX,
        }
    }

    /// Whether every value can have a bucket, no labels occur twice in a
    /// metric, and the counters of requests and responses agree with their
    /// histograms.
    pub open spec fn consistent(self) -> bool {
        &&& cover(self.bounds)
        &&& distinct(self.request_total.values)
        &&& distinct(self.response_total.values)
        &&& paired(self.request_total.values, self.request_duration.values, self.bounds)
        &&& paired(self.response_total.values, self.response_duration.values, self.bounds)
        &&& paired(self.response_total.values, self.response_latency.values, self.bounds)
    }
}

/// What is paired has labels in the same places.
pub(crate) proof fn lemma_paired_position<L>(
    counters: Seq<(L, nat)>,
    histograms: Seq<(L, HistogramView)>,
    bounds: Seq<BoundView>,
    labels: L,
)
    requires
        distinct(counters),
        paired(counters, histograms, bounds),
    ensures
        contains(counters, labels) == contains(histograms, labels),
        contains(counters, labels) ==> position(counters, labels) == position(histograms, labels),
        contains(counters, labels) ==> is_at(counters, position(counters, labels), labels),
{
    if contains(counters, labels) {
        let i = position(counters, labels);
        assert(is_at(counters, i, labels));
        assert(counters[i].0 == histograms[i].0);
        assert(is_at(histograms, i, labels));
        let j = position(histograms, labels);
        assert(is_at(histograms, j, labels));
        assert(counters[j].0 == histograms[j].0);
        if i < j {
            assert(counters[i].0 != counters[j].0);
        }
        if j < i {
            assert(counters[j].0 != counters[i].0);
        }
    }
    if contains(histograms, labels) {
        let j = position(histograms, labels);
        assert(is_at(histograms, j, labels));
        assert(counters[j].0 == histograms[j].0);
        assert(is_at(counters, j, labels));
    }
}

/// Histograms that are paired with counters count no further than these.
proof fn lemma_paired_fits<L: LabelSet>(
    counters: Seq<(L::V, nat)>,
    histograms: Seq<(L::V, HistogramView)>,
    bounds: Seq<BoundView>,
)
    requires
        paired(counters, histograms, bounds),
        forall|i: int| 0 <= i < counters.len() ==> (#[trigger] counters[i]).1 <= u64::MAX,
    ensures
        Metric::<Histogram, L>::fits(histograms, bounds),
{
    assert forall|i: int| 0 <= i < histograms.len() implies {
        &&& (#[trigger] histograms[i]).1.counts.len() == bounds.len()
        &&& histograms[i].1.total() <= u64::MAX
    } by {
        assert(counters[i].0 == histograms[i].0);
    }
}

/// Counting and measuring under the same labels keeps counters and histograms
/// paired.
proof fn lemma_paired_recorded<L>(
    counters: MetricView<L, nat>,
    histograms: MetricView<L, HistogramView>,
    bounds: Seq<BoundView>,
    labels: L,
    value: nat,
)
    requires
        cover(bounds),
        distinct(counters.values),
        paired(counters.values, histograms.values, bounds),
        value <= u64::MAX,
    ensures
        distinct(incremented(counters, labels).values),
        paired(
            incremented(counters, labels).values,
            measured(histograms, bounds, labels, value).values,
            bounds,
        ),
        histogram_or_empty(histograms, bounds, labels).counts.len() == bounds.len(),
        histogram_or_empty(histograms, bounds, labels).total() == value_or(
            counters.values,
            labels,
            0,
        ),
        histogram_or_empty(histograms, bounds, labels).sum <= value_or(counters.values, labels, 0)
            * u64::MAX,
{
    lemma_paired_position(counters.values, histograms.values, bounds, labels);
    lemma_with_value_distinct(
        counters.values,
        labels,
        value_or(counters.values, labels, 0) + 1,
    );
    let histogram = histogram_or_empty(histograms, bounds, labels);
    if contains(counters.values, labels) {
        let i = position(counters.values, labels);
        assert(counters.values[i].0 == histograms.values[i].0);
    } else {
        lemma_empty_total(bounds.len(), bounds.len() as int);
    }
    law_observe_total(histogram, bounds, value);
    let after_counters = incremented(counters, labels).values;
    let after_histograms = measured(histograms, bounds, labels, value).values;
    assert(after_counters.len() == after_histograms.len());
    assert forall|i: int| 0 <= i < after_counters.len() implies {
        &&& (#[trigger] after_counters[i]).0 == (#[trigger] after_histograms[i]).0
        &&& after_histograms[i].1.counts.len() == bounds.len()
        &&& after_histograms[i].1.total() == after_counters[i].1
        &&& after_histograms[i].1.sum <= after_counters[i].1 * u64::MAX
    } by {
        if i < counters.values.len() {
            assert(counters.values[i].0 == histograms.values[i].0);
        }
    }
    assert(paired(after_counters, after_histograms, bounds));
}

/// Recording keeps metrics consistent: after any events, each label set has
/// one counter, and that counter is the count of its histograms.
pub proof fn law_recorded_consistent(metrics: MetricsView, event: Event)
    requires
        metrics.consistent(),
    ensures
        metrics.recorded(event.observation()).consistent(),
{
    match event.observation() {
        Observation::Nothing => {},
        Observation::Request { request: labels, duration } => {
            lemma_paired_recorded(
                metrics.request_total,
                metrics.request_duration,
                metrics.bounds,
                labels,
                duration,
            );
        },
        Observation::Response { response: labels, duration, latency } => {
            lemma_paired_recorded(
                metrics.response_total,
                metrics.response_duration,
                metrics.bounds,
                labels,
                duration,
            );
            lemma_paired_recorded(
                metrics.response_total,
                metrics.response_latency,
                metrics.bounds,
                labels,
                latency,
            );
        },
    }
}

impl Metrics {
    /// Whether the parts are well formed.
    closed spec fn parts_wf(&self) -> bool {
        &&& self.request_total.wf()
        &&& self.request_duration.wf()
        &&& self.response_total.wf()
        &&& self.response_duration.wf()
        &&& self.response_latency.wf()
    }

    /// Whether the parts are well formed and the metrics are consistent.
    pub closed spec fn wf(&self) -> bool {
        &&& self.parts_wf()
        &&& self@.consistent()
    }

    /// Well-formed metrics are consistent.
    pub proof fn lemma_consistent(&self)
        requires
            self.wf(),
        ensures
            self@.consistent(),
    {
    }

    /// Metrics of which nothing was recorded.
    pub fn new(env_labels: Option<Arc<str>>, bounds: BucketBounds) -> (metrics: Self)
        ensures
            metrics.wf(),
            metrics@ == MetricsView::empty(env_view(env_labels), bounds@),
    {
        proof {
            use_type_invariant(&bounds);
        }
        let request_total = Metric::<Counter, RequestLabels>::new(
            REQUEST_TOTAL,
            REQUEST_TOTAL_HELP,
            clone_env(&env_labels),
        );
        let request_duration = Metric::<Histogram, RequestLabels>::new(
            REQUEST_DURATION,
            REQUEST_DURATION_HELP,
            clone_env(&env_labels),
        );
        let response_total = Metric::<Counter, ResponseLabels>::new(
            RESPONSE_TOTAL,
            RESPONSE_TOTAL_HELP,
            clone_env(&env_labels),
        );
        let response_duration = Metric::<Histogram, ResponseLabels>::new(
            RESPONSE_DURATION,
            RESPONSE_DURATION_HELP,
            clone_env(&env_labels),
        );
        let response_latency = Metric::<Histogram, ResponseLabels>::new(
            RESPONSE_LATENCY,
            RESPONSE_LATENCY_HELP,
            clone_env(&env_labels),
        );
        let metrics = Metrics {
            bounds,
            request_total,
            request_duration,
            response_total,
            response_duration,
            response_latency,
        };
        assert(metrics@ =~= MetricsView::empty(env_view(env_labels), bounds@));
        metrics
    }

    /// The counter of requests with the labels.
    fn request_total(&mut self, labels: &Arc<RequestLabels>) -> (total: &mut u64)
        requires
            old(self).parts_wf(),
        ensures
            final(self).parts_wf(),
            *total == value_or(old(self)@.request_total.values, labels@, 0),
            final(self)@ == (MetricsView {
                request_total: MetricView {
                    values: with_value(
                        old(self)@.request_total.values,
                        labels@,
                        *final(total) as nat,
                    ),
                    ..old(self)@.request_total
                },
                ..old(self)@
            }),
    {
        &mut self.request_total.value_mut(labels, Counter(0)).0
    }

    /// The histogram of the durations of requests with the labels.
    fn request_duration(&mut self, labels: &Arc<RequestLabels>) -> (histogram: &mut Histogram)
        requires
            old(self).parts_wf(),
        ensures
            final(self).parts_wf(),
            (*histogram)@ == histogram_or_empty(
                old(self)@.request_duration,
                old(self)@.bounds,
                labels@,
            ),
            final(self)@ == (MetricsView {
                request_duration: MetricView {
                    values: with_value(
                        old(self)@.request_duration.values,
                        labels@,
                        (*final(histogram))@,
                    ),
                    ..old(self)@.request_duration
                },
                ..old(self)@
            }),
    {
        let fresh = Histogram::new(self.bounds.len());
        self.request_duration.value_mut(labels, fresh)
    }

    /// The histogram of the durations of responses with the labels.
    fn response_duration(&mut self, labels: &Arc<ResponseLabels>) -> (histogram: &mut Histogram)
        requires
            old(self).parts_wf(),
        ensures
            final(self).parts_wf(),
            (*histogram)@ == histogram_or_empty(
                old(self)@.response_duration,
                old(self)@.bounds,
                labels@,
            ),
            final(self)@ == (MetricsView {
                response_duration: MetricView {
                    values: with_value(
                        old(self)@.response_duration.values,
                        labels@,
                        (*final(histogram))@,
                    ),
                    ..old(self)@.response_duration
                },
                ..old(self)@
            }),
    {
        let fresh = Histogram::new(self.bounds.len());
        self.response_duration.value_mut(labels, fresh)
    }

    /// The histogram of the latencies of responses with the labels.
    fn response_latency(&mut self, labels: &Arc<ResponseLabels>) -> (histogram: &mut Histogram)
        requires
            old(self).parts_wf(),
        ensures
            final(self).parts_wf(),
            (*histogram)@ == histogram_or_empty(
                old(self)@.response_latency,
                old(self)@.bounds,
                labels@,
            ),
            final(self)@ == (MetricsView {
                response_latency: MetricView {
                    values: with_value(
                        old(self)@.response_latency.values,
                        labels@,
                        (*final(histogram))@,
                    ),
                    ..old(self)@.response_latency
                },
                ..old(self)@
            }),
    {
        let fresh = Histogram::new(self.bounds.len());
        self.response_latency.value_mut(labels, fresh)
    }

    /// The counter of responses with the labels.
    fn response_total(&mut self, labels: &Arc<ResponseLabels>) -> (total: &mut u64)
        requires
            old(self).parts_wf(),
        ensures
            final(self).parts_wf(),
            *total == value_or(old(self)@.response_total.values, labels@, 0),
            final(self)@ == (MetricsView {
                response_total: MetricView {
                    values: with_value(
                        old(self)@.response_total.values,
                        labels@,
                        *final(total) as nat,
                    ),
                    ..old(self)@.response_total
                },
                ..old(self)@
            }),
    {
        &mut self.response_total.value_mut(labels, Counter(0)).0
    }

    /// Records a request that took `duration`.
    pub(crate) fn record_request(&mut self, labels: &Arc<RequestLabels>, duration: u64)
        requires
            old(self).wf(),
            old(self)@.has_room(
                Observation::Request { request: labels@, duration: duration as nat },
            ),
        ensures
            final(self).wf(),
            final(self)@ == old(self)@.recorded(
                Observation::Request { request: labels@, duration: duration as nat },
            ),
    {
        proof {
            lemma_paired_recorded(
                self@.request_total,
                self@.request_duration,
                self@.bounds,
                labels@,
                duration as nat,
            );
        }
        let bounds = self.bounds.clone();
        *self.request_total(labels) += 1;
        self.request_duration(labels).observe(&bounds, duration);
        assert(self@ =~= old(self)@.recorded(
            Observation::Request { request: labels@, duration: duration as nat },
        ));
    }

    /// Records a response that took `duration`, and `latency` from the request
    /// on.
    pub(crate) fn record_response(
        &mut self,
        labels: &Arc<ResponseLabels>,
        duration: u64,
        latency: u64,
    )
        requires
            old(self).wf(),
            old(self)@.has_room(
                Observation::Response {
                    response: labels@,
                    duration: duration as nat,
                    latency: latency as nat,
                },
            ),
        ensures
            final(self).wf(),
            final(self)@ == old(self)@.recorded(
                Observation::Response {
                    response: labels@,
                    duration: duration as nat,
                    latency: latency as nat,
                },
            ),
    {
        proof {
            lemma_paired_recorded(
                self@.response_total,
                self@.response_duration,
                self@.bounds,
                labels@,
                duration as nat,
            );
            lemma_paired_recorded(
                self@.response_total,
                self@.response_latency,
                self@.bounds,
                labels@,
                latency as nat,
            );
        }
        let bounds = self.bounds.clone();
        *self.response_total(labels) += 1;
        self.response_duration(labels).observe(&bounds, duration);
        self.response_latency(labels).observe(&bounds, latency);
        assert(self@ =~= old(self)@.recorded(
            Observation::Response {
                response: labels@,
                duration: duration as nat,
                latency: latency as nat,
            },
        ));
    }

    /// Whether the event can be recorded without a counter passing the largest
    /// number that it can hold.
    pub fn has_room_for(&self, event: &Event) -> (room: bool)
        requires
            self.wf(),
        ensures
            room == self@.has_room(event.observation()),
            room <==> can_record(self@, *event),
    {
        proof {
            law_can_record(self@, *event);
        }
        match event {
            Event::TransportOpen | Event::TransportClose => true,
            Event::StreamRequestOpen(_) | Event::StreamResponseOpen(_) => true,
            Event::StreamRequestFail(req, _) | Event::StreamRequestEnd(req, _) => has_room_to_count(
                &self.request_total,
                &RequestLabels::new(req),
            ),
            Event::StreamResponseFail(res, _) => has_room_to_count(
                &self.response_total,
                &ResponseLabels::new(res, None),
            ),
            Event::StreamResponseEnd(res, end) => has_room_to_count(
                &self.response_total,
                &ResponseLabels::new(res, end.grpc_status),
            ),
        }
    }
}

/// The texts of the numbers of the metrics: those of the counters, and those of
/// the sums of the histograms, in milliseconds.
#[derive(Debug)]
pub struct Numbers {
    pub request_total: Vec<String>,
    pub request_duration: Vec<String>,
    pub response_total: Vec<String>,
    pub response_duration: Vec<String>,
    pub response_latency: Vec<String>,
}

impl MetricsView {
    /// Whether there is a text for each number of the metrics.
    pub open spec fn has_texts(self, numbers: Numbers) -> bool {
        &&& numbers.request_total@.len() == self.request_total.values.len()
        &&& numbers.request_duration@.len() == self.request_duration.values.len()
        &&& numbers.response_total@.len() == self.response_total.values.len()
        &&& numbers.response_duration@.len() == self.response_duration.values.len()
        &&& numbers.response_latency@.len() == self.response_latency.values.len()
    }

    /// Whether `numbers` are texts that `count` returns for the counters, and
    /// `sum_in_ms` for the sums.
    pub open spec fn formatted_by<F: Fn(u64) -> String, G: Fn(u128) -> String>(
        self,
        count: F,
        sum_in_ms: G,
        numbers: Numbers,
    ) -> bool {
        &&& formatted(count, counts(self.request_total.values), numbers.request_total@)
        &&& formatted(sum_in_ms, sums(self.request_duration.values), numbers.request_duration@)
        &&& formatted(count, counts(self.response_total.values), numbers.response_total@)
        &&& formatted(sum_in_ms, sums(self.response_duration.values), numbers.response_duration@)
        &&& formatted(sum_in_ms, sums(self.response_latency.values), numbers.response_latency@)
    }

    /// The text of the metrics: one metric after the other, with an empty line
    /// between them.
    pub open spec fn text(self, numbers: Numbers) -> Seq<char> {
        Metric::<Counter, RequestLabels>::text(self.request_total, numbers.request_total@)
            + "\n"@ + Metric::<Histogram, RequestLabels>::text(
            self.request_duration,
            self.bounds,
            numbers.request_duration@,
        ) + "\n"@ + Metric::<Counter, ResponseLabels>::text(
            self.response_total,
            numbers.response_total@,
        ) + "\n"@ + Metric::<Histogram, ResponseLabels>::text(
            self.response_duration,
            self.bounds,
            numbers.response_duration@,
        ) + "\n"@ + Metric::<Histogram, ResponseLabels>::text(
            self.response_latency,
            self.bounds,
            numbers.response_latency@,
        )
    }
}

/// Whether the texts are texts that `number` returns for the counters
/// themselves.
pub open spec fn reads_counters<L, F: Fn(u64) -> String>(
    number: F,
    values: Seq<(L, nat)>,
    texts: Seq<String>,
) -> bool {
    &&& texts.len() == values.len()
    &&& forall|i: int| 0 <= i < values.len() ==> (#[trigger] values[i]).1 <= u64::MAX
    &&& forall|i: int|
        0 <= i < values.len() ==> call_ensures(number, (values[i].1 as u64,), #[trigger] texts[i])
}

/// Whether the texts are texts that `number` returns for the sums of the
/// histograms themselves.
pub open spec fn reads_sums<L, F: Fn(u128) -> String>(
    number: F,
    values: Seq<(L, HistogramView)>,
    texts: Seq<String>,
) -> bool {
    &&& texts.len() == values.len()
    &&& forall|i: int| 0 <= i < values.len() ==> (#[trigger] values[i]).1.sum <= u128::MAX
    &&& forall|i: int|
        0 <= i < values.len() ==> call_ensures(
            number,
            (values[i].1.sum as u128,),
            #[trigger] texts[i],
        )
}

/// Whether `numbers` are texts that `count` returns for the counters themselves,
/// and `sum_in_ms` for the sums themselves.
pub open spec fn reads<F: Fn(u64) -> String, G: Fn(u128) -> String>(
    count: F,
    sum_in_ms: G,
    metrics: MetricsView,
    numbers: Numbers,
) -> bool {
    &&& reads_counters(count, metrics.request_total.values, numbers.request_total@)
    &&& reads_sums(sum_in_ms, metrics.request_duration.values, numbers.request_duration@)
    &&& reads_counters(count, metrics.response_total.values, numbers.response_total@)
    &&& reads_sums(sum_in_ms, metrics.response_duration.values, numbers.response_duration@)
    &&& reads_sums(sum_in_ms, metrics.response_latency.values, numbers.response_latency@)
}

impl Metrics {
    /// The texts that `count` returns for the counters, and `sum_in_ms` for the
    /// sums of the histograms.
    pub fn numbers<F: Fn(u64) -> String, G: Fn(u128) -> String>(
        &self,
        count: &F,
        sum_in_ms: &G,
    ) -> (numbers: Numbers)
        requires
            forall|n: u64| call_requires(*count, (n,)),
            forall|n: u128| call_requires(*sum_in_ms, (n,)),
        ensures
            self@.formatted_by(*count, *sum_in_ms, numbers),
            self@.has_texts(numbers),
            reads(*count, *sum_in_ms, self@, numbers),
    {
        Numbers {
            request_total: self.request_total.numbers(count),
            request_duration: self.request_duration.numbers(sum_in_ms),
            response_total: self.response_total.numbers(count),
            response_duration: self.response_duration.numbers(sum_in_ms),
            response_latency: self.response_latency.numbers(sum_in_ms),
        }
    }

    /// Appends the text of the metrics, where `numbers` are the texts of their
    /// numbers.
    pub fn fmt(&self, numbers: &Numbers, f: &mut String)
        requires
            self.wf(),
            self@.has_texts(*numbers),
        ensures
            final(f)@ == old(f)@ + self@.text(*numbers),
    {
        proof {
            self.request_total.lemma_bounded();
            self.response_total.lemma_bounded();
            lemma_paired_fits::<RequestLabels>(
                self@.request_total.values,
                self@.request_duration.values,
                self@.bounds,
            );
            lemma_paired_fits::<ResponseLabels>(
                self@.response_total.values,
                self@.response_duration.values,
                self@.bounds,
            );
            lemma_paired_fits::<ResponseLabels>(
                self@.response_total.values,
                self@.response_latency.values,
                self@.bounds,
            );
        }
        self.request_total.fmt(&numbers.request_total, f);
        f.append("\n");
        self.request_duration.fmt(&self.bounds, &numbers.request_duration, f);
        f.append("\n");
        self.response_total.fmt(&numbers.response_total, f);
        f.append("\n");
        self.response_duration.fmt(&self.bounds, &numbers.response_duration, f);
        f.append("\n");
        self.response_latency.fmt(&self.bounds, &numbers.response_latency, f);
        proof {
            let base = old(f)@;
            let nl = "\n"@;
            let a = Metric::<Counter, RequestLabels>::text(self@.request_total, numbers.request_total@);
            let b = Metric::<Histogram, RequestLabels>::text(
                self@.request_duration,
                self@.bounds,
                numbers.request_duration@,
            );
            let c = Metric::<Counter, ResponseLabels>::text(self@.response_total, numbers.response_total@);
            let d = Metric::<Histogram, ResponseLabels>::text(
                self@.response_duration,
                self@.bounds,
                numbers.response_duration@,
            );
            let e = Metric::<Histogram, ResponseLabels>::text(
                self@.response_latency,
                self@.bounds,
                numbers.response_latency@,
            );
            lemma_append(base, a, nl, b);
            lemma_append(base, a + nl + b, nl, c);
            lemma_append(base, a + nl + b + nl + c, nl, d);
            lemma_append(base, a + nl + b + nl + c + nl + d, nl, e);
        }
    }
}

/// Whether the counter for the labels can go up.
fn has_room_to_count<L: LabelSet>(metric: &Metric<Counter, L>, labels: &L) -> (room: bool)
    requires
        metric.wf(),
    ensures
        room == (value_or(metric@.values, labels@, 0) < u64::MAX),
{
    match metric.value(labels) {
        Some(counter) => counter.0 < u64::MAX,
        None => true,
    }
}

} // verus!

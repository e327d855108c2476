//! The text that is served, line by line, in terms of the events.
use crate::event::Event;
use crate::labels::{
    LabelSet, OutboundLabelsView, PodOwnerView, RequestLabels, RequestLabelsView, ResponseLabels,
    ResponseLabelsView,
};
use crate::latency::{cover, cumulative, BoundView, Histogram, HistogramView};
use crate::laws::{
    appears, law_always_consistent, law_environment_everywhere, law_metrics_served, law_requests,
    law_responses, lemma_appears, lemma_appears_transitive, request_durations, response_durations,
    response_latencies, sum, summarizes, within,
};
use crate::metric::{
    contains, counts, distinct, env_text, formatted, is_at, le_text, position, sums, value_or,
    Counter, Metric, MetricView,
};
use crate::metrics::{
    histogram_or_empty, lemma_paired_position, paired, MetricsView, Numbers, REQUEST_DURATION_HELP,
    REQUEST_TOTAL_HELP, RESPONSE_DURATION_HELP, RESPONSE_LATENCY_HELP, RESPONSE_TOTAL_HELP,
};
use crate::recording::{counts_one, law_records, request_labels, response_labels};
use crate::serve::{answers, ReplyView};
use crate::text::decimal;
use vstd::prelude::*;
use vstd::utf8::encode_utf8;

verus! {

/// The text of an owner says what kind it is of, and its name.
pub proof fn law_owner_text(name: Seq<char>)
    ensures
        PodOwnerView::Deployment(name).text() == "deployment=\""@ + name + "\""@,
        PodOwnerView::Job(name).text() == "job=\""@ + name + "\","@,
        PodOwnerView::ReplicaSet(name).text() == "replica_set=\""@ + name + "\""@,
        PodOwnerView::ReplicationController(name).text() == "replication_controller=\""@ + name
            + "\""@,
{
}

/// What is known of a destination stands in its text: the namespace first, then
/// the owner.
pub proof fn law_destination_text(owner: PodOwnerView, namespace: Seq<char>)
    ensures
        (OutboundLabelsView { dst: None, namespace: None }).text() == Seq::<char>::empty(),
        (OutboundLabelsView { dst: Some(owner), namespace: None }).text() == "dst_"@ + owner.text(),
        (OutboundLabelsView { dst: None, namespace: Some(namespace) }).text()
            == "dst_namespace=\""@ + namespace + "\""@,
        (OutboundLabelsView { dst: Some(owner), namespace: Some(namespace) }).text()
            == "dst_namespace=\""@ + namespace + "\",dst_"@ + owner.text(),
{
}

/// The authority of a request stands first in the text of its labels, then its
/// direction, then what is known of its destination, if anything is.
pub proof fn law_request_text(authority: Seq<char>, destination: OutboundLabelsView)
    ensures
        <RequestLabels as LabelSet>::text(
            RequestLabelsView { outbound_labels: None, authority },
        ) == "authority=\""@ + authority + "\","@ + "direction=\"inbound\""@,
        <RequestLabels as LabelSet>::text(
            RequestLabelsView { outbound_labels: Some(destination), authority },
        ) == "authority=\""@ + authority + "\","@ + "direction=\"outbound\""@ + (if destination.dst
            is None && destination.namespace is None {
            Seq::empty()
        } else {
            ","@ + destination.text()
        }),
{
    reveal_strlit("");
    let outbound = RequestLabelsView { outbound_labels: Some(destination), authority };
    assert(outbound.text() =~= "authority=\""@ + authority + "\","@ + "direction=\"outbound\""@ + (
    if destination.dst is None && destination.namespace is None {
        Seq::empty()
    } else {
        ","@ + destination.text()
    }));
}

/// The labels of the request stand first in the text of a response's labels,
/// then the status, then, with nothing between them, the gRPC status, if there
/// was one.
pub proof fn law_response_text(request: RequestLabelsView, status: u16, grpc_status: u32)
    ensures
        <ResponseLabels as LabelSet>::text(
            ResponseLabelsView {
                request_labels: request,
                status_code: status,
                grpc_status_code: None,
            },
        ) == <RequestLabels as LabelSet>::text(request) + ",status_code=\""@ + decimal(
            status as nat,
        ) + "\""@,
        <ResponseLabels as LabelSet>::text(
            ResponseLabelsView {
                request_labels: request,
                status_code: status,
                grpc_status_code: Some(grpc_status),
            },
        ) == <RequestLabels as LabelSet>::text(request) + ",status_code=\""@ + decimal(
            status as nat,
        ) + "\""@ + ("grpc_status_code=\""@ + decimal(grpc_status as nat) + "\""@),
{
    assert((ResponseLabelsView {
        request_labels: request,
        status_code: status,
        grpc_status_code: None,
    }).text() =~= request.text() + ",status_code=\""@ + decimal(status as nat) + "\""@);
}

/// One line: a series, the labels from the environment before the other labels,
/// if there are any, and a number.
pub open spec fn line(
    series: Seq<char>,
    env_labels: Option<Seq<char>>,
    labels: Seq<char>,
    number: Seq<char>,
) -> Seq<char> {
    series + "{"@ + (match env_labels {
        Some(env_labels) => env_labels + ","@,
        None => Seq::empty(),
    }) + labels + "} "@ + number + "\n"@
}

/// The two lines that say what a metric is.
pub open spec fn description(name: Seq<char>, help: Seq<char>, kind: Seq<char>) -> Seq<char> {
    "# HELP "@ + name + " "@ + help + "\n# TYPE "@ + name + " "@ + kind + "\n"@
}

/// The lines of counters, one for each label set.
pub open spec fn counter_lines<L: LabelSet>(
    name: Seq<char>,
    env_labels: Option<Seq<char>>,
    sets: Seq<L::V>,
    numbers: Seq<String>,
) -> Seq<Seq<char>> {
    Seq::new(sets.len(), |i: int| line(name, env_labels, L::text(sets[i]), numbers[i]@))
}

/// The line of one bucket: how many of the values are not above its bound.
pub open spec fn bucket_line(
    name: Seq<char>,
    env_labels: Option<Seq<char>>,
    labels: Seq<char>,
    bound: BoundView,
    values: Seq<nat>,
) -> Seq<char> {
    line(
        name + "_bucket"@,
        env_labels,
        labels + ",le=\""@ + bound.le + "\""@,
        decimal(within(values, bound.upper)),
    )
}

/// The lines of the buckets of a histogram of `values`.
pub open spec fn bucket_lines(
    name: Seq<char>,
    env_labels: Option<Seq<char>>,
    labels: Seq<char>,
    bounds: Seq<BoundView>,
    values: Seq<nat>,
) -> Seq<Seq<char>> {
    Seq::new(bounds.len(), |b: int| bucket_line(name, env_labels, labels, bounds[b], values))
}

/// The lines of a histogram of `values`: those of its buckets, how many values
/// there are, and their sum, of which `sum_text` is the text.
pub open spec fn histogram_lines(
    name: Seq<char>,
    env_labels: Option<Seq<char>>,
    labels: Seq<char>,
    bounds: Seq<BoundView>,
    values: Seq<nat>,
    sum_text: Seq<char>,
) -> Seq<char> {
    bucket_lines(name, env_labels, labels, bounds, values).flatten() + line(
        name + "_count"@,
        env_labels,
        labels,
        decimal(values.len()),
    ) + line(name + "_sum"@, env_labels, labels, sum_text)
}

/// The lines of all histograms of a metric, where `values` are those of each
/// label set.
pub open spec fn all_histogram_lines<L: LabelSet>(
    name: Seq<char>,
    env_labels: Option<Seq<char>>,
    bounds: Seq<BoundView>,
    sets: Seq<L::V>,
    values: Seq<Seq<nat>>,
    sum_texts: Seq<String>,
) -> Seq<Seq<char>> {
    Seq::new(
        sets.len(),
        |i: int|
            histogram_lines(
                name,
                env_labels,
                L::text(sets[i]),
                bounds,
                values[i],
                sum_texts[i]@,
            ),
    )
}

/// The label sets of the finished requests, in the order in which they first
/// came up.
pub open spec fn request_sets(events: Seq<Event>) -> Seq<RequestLabelsView>
    decreases events.len(),
{
    if events.len() == 0 {
        Seq::empty()
    } else {
        let before = request_sets(events.drop_last());
        match events.last() {
            Event::StreamRequestFail(req, _) => with_set(before, request_labels(req)),
            Event::StreamRequestEnd(req, _) => with_set(before, request_labels(req)),
            _ => before,
        }
    }
}

/// The label sets of the finished responses, in the order in which they first
/// came up.
pub open spec fn response_sets(events: Seq<Event>) -> Seq<ResponseLabelsView>
    decreases events.len(),
{
    if events.len() == 0 {
        Seq::empty()
    } else {
        let before = response_sets(events.drop_last());
        match events.last() {
            Event::StreamResponseFail(res, _) => with_set(before, response_labels(res, None)),
            Event::StreamResponseEnd(res, end) => with_set(
                before,
                response_labels(res, end.grpc_status),
            ),
            _ => before,
        }
    }
}

/// The label sets with one more, which is new or is there already.
pub open spec fn with_set<L>(sets: Seq<L>, labels: L) -> Seq<L> {
    if sets.contains(labels) {
        sets
    } else {
        sets.push(labels)
    }
}

/// The durations of the finished requests of each label set.
pub open spec fn all_request_durations(events: Seq<Event>) -> Seq<Seq<nat>> {
    Seq::new(
        request_sets(events).len(),
        |i: int| request_durations(events, request_sets(events)[i]),
    )
}

/// The durations of the finished responses of each label set.
pub open spec fn all_response_durations(events: Seq<Event>) -> Seq<Seq<nat>> {
    Seq::new(
        response_sets(events).len(),
        |i: int| response_durations(events, response_sets(events)[i]),
    )
}

/// The latencies of the finished responses of each label set.
pub open spec fn all_response_latencies(events: Seq<Event>) -> Seq<Seq<nat>> {
    Seq::new(
        response_sets(events).len(),
        |i: int| response_latencies(events, response_sets(events)[i]),
    )
}

/// The text that is to be served after the events, where `numbers` are the texts
/// of the counters and the sums.
pub open spec fn document(
    env_labels: Option<Seq<char>>,
    bounds: Seq<BoundView>,
    events: Seq<Event>,
    numbers: Numbers,
) -> Seq<char> {
    description("request_total"@, REQUEST_TOTAL_HELP@, "counter"@) + counter_lines::<
        RequestLabels,
    >("request_total"@, env_labels, request_sets(events), numbers.request_total@).flatten()
        + "\n"@ + (description("request_duration_ms"@, REQUEST_DURATION_HELP@, "histogram"@)
        + all_histogram_lines::<RequestLabels>(
        "request_duration_ms"@,
        env_labels,
        bounds,
        request_sets(events),
        all_request_durations(events),
        numbers.request_duration@,
    ).flatten()) + "\n"@ + (description("response_total"@, RESPONSE_TOTAL_HELP@, "counter"@)
        + counter_lines::<ResponseLabels>(
        "response_total"@,
        env_labels,
        response_sets(events),
        numbers.response_total@,
    ).flatten()) + "\n"@ + (description(
        "response_duration_ms"@,
        RESPONSE_DURATION_HELP@,
        "histogram"@,
    ) + all_histogram_lines::<ResponseLabels>(
        "response_duration_ms"@,
        env_labels,
        bounds,
        response_sets(events),
        all_response_durations(events),
        numbers.response_duration@,
    ).flatten()) + "\n"@ + (description(
        "response_latency_ms"@,
        RESPONSE_LATENCY_HELP@,
        "histogram"@,
    ) + all_histogram_lines::<ResponseLabels>(
        "response_latency_ms"@,
        env_labels,
        bounds,
        response_sets(events),
        all_response_latencies(events),
        numbers.response_latency@,
    ).flatten())
}

/// One more part at the end of the first `n - 1` is at the end of the text.
proof fn lemma_flatten_take(parts: Seq<Seq<char>>, n: int)
    requires
        0 < n <= parts.len(),
    ensures
        parts.take(n).flatten() == parts.take(n - 1).flatten() + parts[n - 1],
{
    assert(parts.take(n) =~= parts.take(n - 1).push(parts[n - 1]));
    parts.take(n - 1).lemma_flatten_push(parts[n - 1]);
}

/// A sample is a line of the metric's name and its suffix.
proof fn lemma_line<L, M>(
    metric: MetricView<L, M>,
    suffix: Seq<char>,
    labels: Seq<char>,
    number: Seq<char>,
)
    ensures
        metric.sample(suffix, labels, None, number) == line(
            metric.name + suffix,
            metric.env_labels,
            labels,
            number,
        ),
{
    assert(labels + le_text(None) =~= labels);
    let head = metric.name + suffix + "{"@ + env_text(metric.env_labels);
    assert(head + labels + le_text(None) =~= head + labels);
}

/// The sample of a bucket is a line that names its bound.
proof fn lemma_bound_line<L, M>(
    metric: MetricView<L, M>,
    suffix: Seq<char>,
    labels: Seq<char>,
    le: Seq<char>,
    number: Seq<char>,
)
    ensures
        metric.sample(suffix, labels, Some(le), number) == line(
            metric.name + suffix,
            metric.env_labels,
            labels + ",le=\""@ + le + "\""@,
            number,
        ),
{
    let head = metric.name + suffix + "{"@ + env_text(metric.env_labels);
    assert(head + labels + le_text(Some(le)) =~= head + (labels + ",le=\""@ + le + "\""@));
}

/// The lines of the first `n` counters.
proof fn lemma_counter_lines<L: LabelSet>(
    metric: MetricView<L::V, nat>,
    sets: Seq<L::V>,
    numbers: Seq<String>,
    n: int,
)
    requires
        metric.values.len() == sets.len(),
        forall|i: int| 0 <= i < sets.len() ==> (#[trigger] metric.values[i]).0 == sets[i],
        0 <= n <= sets.len(),
    ensures
        Metric::<Counter, L>::samples_text(metric, numbers, n) == counter_lines::<L>(
            metric.name,
            metric.env_labels,
            sets,
            numbers,
        ).take(n).flatten(),
    decreases n,
{
    let lines = counter_lines::<L>(metric.name, metric.env_labels, sets, numbers);
    if n > 0 {
        lemma_counter_lines::<L>(metric, sets, numbers, n - 1);
        lemma_flatten_take(lines, n);
        assert(metric.values[n - 1].0 == sets[n - 1]);
        lemma_line(metric, Seq::empty(), L::text(sets[n - 1]), numbers[n - 1]@);
        assert(metric.name + Seq::<char>::empty() =~= metric.name);
    } else {
        assert(lines.take(0) =~= Seq::empty());
    }
}

/// The text of a counter metric, line by line: the description, and for each
/// label set, in order, one line with the text of its counter.
pub proof fn law_counter_text<L: LabelSet>(
    metric: MetricView<L::V, nat>,
    sets: Seq<L::V>,
    numbers: Seq<String>,
)
    requires
        metric.values.len() == sets.len(),
        forall|i: int| 0 <= i < sets.len() ==> (#[trigger] metric.values[i]).0 == sets[i],
    ensures
        Metric::<Counter, L>::text(metric, numbers) == description(
            metric.name,
            metric.help,
            "counter"@,
        ) + counter_lines::<L>(metric.name, metric.env_labels, sets, numbers).flatten(),
{
    let lines = counter_lines::<L>(metric.name, metric.env_labels, sets, numbers);
    lemma_counter_lines::<L>(metric, sets, numbers, sets.len() as int);
    assert(lines.take(sets.len() as int) =~= lines);
}

/// The lines of the first `n` buckets of a histogram of `values`.
proof fn lemma_bucket_lines<L: LabelSet>(
    metric: MetricView<L::V, HistogramView>,
    bounds: Seq<BoundView>,
    i: int,
    values: Seq<nat>,
    n: int,
)
    requires
        summarizes(metric.values[i].1, bounds, values),
        0 <= n <= bounds.len(),
    ensures
        Metric::<Histogram, L>::buckets_text(metric, bounds, i, n) == bucket_lines(
            metric.name,
            metric.env_labels,
            L::text(metric.values[i].0),
            bounds,
            values,
        ).take(n).flatten(),
    decreases n,
{
    let labels = L::text(metric.values[i].0);
    let lines = bucket_lines(metric.name, metric.env_labels, labels, bounds, values);
    if n > 0 {
        lemma_bucket_lines::<L>(metric, bounds, i, values, n - 1);
        lemma_flatten_take(lines, n);
        let b = n - 1;
        assert(cumulative(metric.values[i].1.counts, b + 1) == within(values, bounds[b].upper));
        lemma_bound_line(
            metric,
            "_bucket"@,
            labels,
            bounds[n - 1].le,
            decimal(within(values, bounds[n - 1].upper)),
        );
    } else {
        assert(lines.take(0) =~= Seq::empty());
    }
}

/// The lines of a histogram of `values`.
proof fn lemma_histogram_lines<L: LabelSet>(
    metric: MetricView<L::V, HistogramView>,
    bounds: Seq<BoundView>,
    i: int,
    values: Seq<nat>,
    sum_text: Seq<char>,
)
    requires
        summarizes(metric.values[i].1, bounds, values),
    ensures
        Metric::<Histogram, L>::histogram_text(metric, bounds, i, sum_text) == histogram_lines(
            metric.name,
            metric.env_labels,
            L::text(metric.values[i].0),
            bounds,
            values,
            sum_text,
        ),
{
    let labels = L::text(metric.values[i].0);
    let lines = bucket_lines(metric.name, metric.env_labels, labels, bounds, values);
    lemma_bucket_lines::<L>(metric, bounds, i, values, bounds.len() as int);
    assert(lines.take(bounds.len() as int) =~= lines);
    lemma_line(metric, "_count"@, labels, decimal(values.len()));
    lemma_line(metric, "_sum"@, labels, sum_text);
}

/// The lines of the first `n` histograms.
proof fn lemma_all_histogram_lines<L: LabelSet>(
    metric: MetricView<L::V, HistogramView>,
    bounds: Seq<BoundView>,
    sets: Seq<L::V>,
    values: Seq<Seq<nat>>,
    numbers: Seq<String>,
    n: int,
)
    requires
        metric.values.len() == sets.len(),
        values.len() == sets.len(),
        forall|i: int| 0 <= i < sets.len() ==> (#[trigger] metric.values[i]).0 == sets[i],
        forall|i: int|
            0 <= i < sets.len() ==> summarizes(
                (#[trigger] metric.values[i]).1,
                bounds,
                values[i],
            ),
        0 <= n <= sets.len(),
    ensures
        Metric::<Histogram, L>::samples_text(metric, bounds, numbers, n) == all_histogram_lines::<
            L,
        >(metric.name, metric.env_labels, bounds, sets, values, numbers).take(n).flatten(),
    decreases n,
{
    let lines = all_histogram_lines::<L>(
        metric.name,
        metric.env_labels,
        bounds,
        sets,
        values,
        numbers,
    );
    if n > 0 {
        lemma_all_histogram_lines::<L>(metric, bounds, sets, values, numbers, n - 1);
        lemma_flatten_take(lines, n);
        assert(metric.values[n - 1].0 == sets[n - 1]);
        lemma_histogram_lines::<L>(metric, bounds, n - 1, values[n - 1], numbers[n - 1]@);
    } else {
        assert(lines.take(0) =~= Seq::empty());
    }
}

/// The text of a histogram metric, line by line: the description, and for each
/// label set, in order, for each bound how many of its values are not above it,
/// how many values there are, and the text of their sum.
pub proof fn law_histogram_text<L: LabelSet>(
    metric: MetricView<L::V, HistogramView>,
    bounds: Seq<BoundView>,
    sets: Seq<L::V>,
    values: Seq<Seq<nat>>,
    numbers: Seq<String>,
)
    requires
        metric.values.len() == sets.len(),
        values.len() == sets.len(),
        forall|i: int| 0 <= i < sets.len() ==> (#[trigger] metric.values[i]).0 == sets[i],
        forall|i: int|
            0 <= i < sets.len() ==> summarizes(
                (#[trigger] metric.values[i]).1,
                bounds,
                values[i],
            ),
    ensures
        Metric::<Histogram, L>::text(metric, bounds, numbers) == description(
            metric.name,
            metric.help,
            "histogram"@,
        ) + all_histogram_lines::<L>(
            metric.name,
            metric.env_labels,
            bounds,
            sets,
            values,
            numbers,
        ).flatten(),
{
    let lines = all_histogram_lines::<L>(
        metric.name,
        metric.env_labels,
        bounds,
        sets,
        values,
        numbers,
    );
    lemma_all_histogram_lines::<L>(metric, bounds, sets, values, numbers, sets.len() as int);
    assert(lines.take(sets.len() as int) =~= lines);
}

/// The label sets of counters are the label sets so far and the one that is
/// counted.
proof fn lemma_sets_counted<L>(
    before: Seq<(L, nat)>,
    after: Seq<(L, nat)>,
    labels: L,
    sets: Seq<L>,
)
    requires
        counts_one(before, after, labels),
        before.len() == sets.len(),
        forall|i: int| 0 <= i < sets.len() ==> (#[trigger] before[i]).0 == sets[i],
    ensures
        after.len() == with_set(sets, labels).len(),
        forall|i: int|
            0 <= i < after.len() ==> (#[trigger] after[i]).0 == with_set(sets, labels)[i],
{
    if sets.contains(labels) {
        let j = choose|j: int| 0 <= j < sets.len() && sets[j] == labels;
        assert(before[j].0 == labels);
    } else {
        assert forall|i: int| 0 <= i < before.len() implies (#[trigger] before[i]).0 != labels by {
            assert(sets[i] != labels);
        }
    }
}

/// After any events, the counters of requests and of responses are those of the
/// label sets of the finished requests and responses, in order.
pub proof fn law_sets(env_labels: Option<Seq<char>>, bounds: Seq<BoundView>, events: Seq<Event>)
    requires
        cover(bounds),
    ensures
        ({
            let metrics = MetricsView::empty(env_labels, bounds).recorded_all(events);
            &&& metrics.request_total.values.len() == request_sets(events).len()
            &&& forall|i: int|
                0 <= i < request_sets(events).len() ==> (
                #[trigger] metrics.request_total.values[i]).0 == request_sets(events)[i]
            &&& metrics.response_total.values.len() == response_sets(events).len()
            &&& forall|i: int|
                0 <= i < response_sets(events).len() ==> (
                #[trigger] metrics.response_total.values[i]).0 == response_sets(events)[i]
        }),
    decreases events.len(),
{
    if events.len() > 0 {
        let before = MetricsView::empty(env_labels, bounds).recorded_all(events.drop_last());
        let after = MetricsView::empty(env_labels, bounds).recorded_all(events);
        law_sets(env_labels, bounds, events.drop_last());
        law_always_consistent(env_labels, bounds, events.drop_last());
        law_records(before, events.last());
        match events.last() {
            Event::StreamRequestFail(req, _) => {
                lemma_sets_counted(
                    before.request_total.values,
                    after.request_total.values,
                    request_labels(req),
                    request_sets(events.drop_last()),
                );
            },
            Event::StreamRequestEnd(req, _) => {
                lemma_sets_counted(
                    before.request_total.values,
                    after.request_total.values,
                    request_labels(req),
                    request_sets(events.drop_last()),
                );
            },
            Event::StreamResponseFail(res, _) => {
                lemma_sets_counted(
                    before.response_total.values,
                    after.response_total.values,
                    response_labels(res, None),
                    response_sets(events.drop_last()),
                );
            },
            Event::StreamResponseEnd(res, end) => {
                lemma_sets_counted(
                    before.response_total.values,
                    after.response_total.values,
                    response_labels(res, end.grpc_status),
                    response_sets(events.drop_last()),
                );
            },
            _ => {},
        }
    }
}

/// The value of the labels at some place is the value there.
proof fn lemma_value_at<L, M>(values: Seq<(L, M)>, i: int, fresh: M)
    requires
        distinct(values),
        0 <= i < values.len(),
    ensures
        contains(values, values[i].0),
        value_or(values, values[i].0, fresh) == values[i].1,
{
    assert(is_at(values, i, values[i].0));
    let p = position(values, values[i].0);
    assert(is_at(values, p, values[i].0));
    if i < p {
        assert(values[i].0 != values[p].0);
    }
    if p < i {
        assert(values[p].0 != values[i].0);
    }
}

/// The counter and the histogram at some place are those of the labels there.
proof fn lemma_paired_at<L>(
    counters: Seq<(L, nat)>,
    histograms: MetricView<L, HistogramView>,
    bounds: Seq<BoundView>,
    i: int,
)
    requires
        distinct(counters),
        paired(counters, histograms.values, bounds),
        0 <= i < counters.len(),
    ensures
        contains(counters, counters[i].0),
        value_or(counters, counters[i].0, 0) == counters[i].1,
        histograms.values[i].0 == counters[i].0,
        histogram_or_empty(histograms, bounds, counters[i].0) == histograms.values[i].1,
{
    lemma_value_at(counters, i, 0);
    lemma_paired_position(counters, histograms.values, bounds, counters[i].0);
    assert(is_at(counters, position(counters, counters[i].0), counters[i].0));
    let p = position(counters, counters[i].0);
    if i < p {
        assert(counters[i].0 != counters[p].0);
    }
    if p < i {
        assert(counters[p].0 != counters[i].0);
    }
    assert(counters[i].0 == histograms.values[i].0);
}

/// After any events, each label set of finished requests has as its counter the
/// number of these, and a histogram that summarizes their durations.
pub proof fn law_request_values(
    env_labels: Option<Seq<char>>,
    bounds: Seq<BoundView>,
    events: Seq<Event>,
    i: int,
)
    requires
        cover(bounds),
        0 <= i < request_sets(events).len(),
    ensures
        ({
            let metrics = MetricsView::empty(env_labels, bounds).recorded_all(events);
            let durations = request_durations(events, request_sets(events)[i]);
            &&& metrics.request_total.values[i] == (request_sets(events)[i], durations.len())
            &&& metrics.request_duration.values[i].0 == request_sets(events)[i]
            &&& summarizes(metrics.request_duration.values[i].1, bounds, durations)
            &&& durations.len() > 0
        }),
{
    let metrics = MetricsView::empty(env_labels, bounds).recorded_all(events);
    law_sets(env_labels, bounds, events);
    law_always_consistent(env_labels, bounds, events);
    law_requests(env_labels, bounds, events, request_sets(events)[i]);
    assert(metrics.request_total.values[i].0 == request_sets(events)[i]);
    lemma_paired_at(metrics.request_total.values, metrics.request_duration, bounds, i);
}

/// After any events, each label set of finished responses has as its counter the
/// number of these, and histograms that summarize their durations and their
/// latencies.
pub proof fn law_response_values(
    env_labels: Option<Seq<char>>,
    bounds: Seq<BoundView>,
    events: Seq<Event>,
    i: int,
)
    requires
        cover(bounds),
        0 <= i < response_sets(events).len(),
    ensures
        ({
            let metrics = MetricsView::empty(env_labels, bounds).recorded_all(events);
            let durations = response_durations(events, response_sets(events)[i]);
            let latencies = response_latencies(events, response_sets(events)[i]);
            &&& metrics.response_total.values[i] == (response_sets(events)[i], durations.len())
            &&& metrics.response_duration.values[i].0 == response_sets(events)[i]
            &&& metrics.response_latency.values[i].0 == response_sets(events)[i]
            &&& summarizes(metrics.response_duration.values[i].1, bounds, durations)
            &&& summarizes(metrics.response_latency.values[i].1, bounds, latencies)
            &&& durations.len() == latencies.len()
            &&& durations.len() > 0
        }),
{
    let metrics = MetricsView::empty(env_labels, bounds).recorded_all(events);
    law_sets(env_labels, bounds, events);
    law_always_consistent(env_labels, bounds, events);
    law_responses(env_labels, bounds, events, response_sets(events)[i]);
    assert(metrics.response_total.values[i].0 == response_sets(events)[i]);
    lemma_paired_at(metrics.response_total.values, metrics.response_duration, bounds, i);
    lemma_paired_at(metrics.response_total.values, metrics.response_latency, bounds, i);
}

/// The metrics have their names and helps after any events.
pub proof fn law_names(env_labels: Option<Seq<char>>, bounds: Seq<BoundView>, events: Seq<Event>)
    ensures
        ({
            let metrics = MetricsView::empty(env_labels, bounds).recorded_all(events);
            &&& metrics.request_total.name == "request_total"@
            &&& metrics.request_total.help == REQUEST_TOTAL_HELP@
            &&& metrics.request_duration.name == "request_duration_ms"@
            &&& metrics.request_duration.help == REQUEST_DURATION_HELP@
            &&& metrics.response_total.name == "response_total"@
            &&& metrics.response_total.help == RESPONSE_TOTAL_HELP@
            &&& metrics.response_duration.name == "response_duration_ms"@
            &&& metrics.response_duration.help == RESPONSE_DURATION_HELP@
            &&& metrics.response_latency.name == "response_latency_ms"@
            &&& metrics.response_latency.help == RESPONSE_LATENCY_HELP@
        }),
    decreases events.len(),
{
    if events.len() > 0 {
        law_names(env_labels, bounds, events.drop_last());
    }
}

/// The text of the metrics after any events, in terms of the events: the five
/// metrics in order, with an empty line between them; in each of them, the label
/// sets of the finished streams in the order in which they first came up; of
/// each of these, the counter, or for each bound how many of the streams took no
/// longer, how many streams there were, and the sum.
pub proof fn law_document(
    env_labels: Option<Seq<char>>,
    bounds: Seq<BoundView>,
    events: Seq<Event>,
    numbers: Numbers,
)
    requires
        cover(bounds),
    ensures
        MetricsView::empty(env_labels, bounds).recorded_all(events).text(numbers) == document(
            env_labels,
            bounds,
            events,
            numbers,
        ),
{
    let metrics = MetricsView::empty(env_labels, bounds).recorded_all(events);
    let requests = request_sets(events);
    let responses = response_sets(events);
    law_names(env_labels, bounds, events);
    law_environment_everywhere(env_labels, bounds, events);
    law_always_consistent(env_labels, bounds, events);
    law_sets(env_labels, bounds, events);
    assert forall|i: int| 0 <= i < requests.len() implies {
        &&& (#[trigger] metrics.request_duration.values[i]).0 == requests[i]
        &&& summarizes(
            metrics.request_duration.values[i].1,
            bounds,
            all_request_durations(events)[i],
        )
    } by {
        law_request_values(env_labels, bounds, events, i);
    }
    assert forall|i: int| 0 <= i < responses.len() implies {
        &&& (#[trigger] metrics.response_duration.values[i]).0 == responses[i]
        &&& summarizes(
            metrics.response_duration.values[i].1,
            bounds,
            all_response_durations(events)[i],
        )
    } by {
        law_response_values(env_labels, bounds, events, i);
    }
    assert forall|i: int| 0 <= i < responses.len() implies {
        &&& (#[trigger] metrics.response_latency.values[i]).0 == responses[i]
        &&& summarizes(
            metrics.response_latency.values[i].1,
            bounds,
            all_response_latencies(events)[i],
        )
    } by {
        law_response_values(env_labels, bounds, events, i);
    }
    law_counter_text::<RequestLabels>(metrics.request_total, requests, numbers.request_total@);
    law_histogram_text::<RequestLabels>(
        metrics.request_duration,
        bounds,
        requests,
        all_request_durations(events),
        numbers.request_duration@,
    );
    law_counter_text::<ResponseLabels>(metrics.response_total, responses, numbers.response_total@);
    law_histogram_text::<ResponseLabels>(
        metrics.response_duration,
        bounds,
        responses,
        all_response_durations(events),
        numbers.response_duration@,
    );
    law_histogram_text::<ResponseLabels>(
        metrics.response_latency,
        bounds,
        responses,
        all_response_latencies(events),
        numbers.response_latency@,
    );
}

/// Whether the texts are texts that `number` returns for how many values each
/// label set has.
pub open spec fn are_counts<F: Fn(u64) -> String>(
    number: F,
    values: Seq<Seq<nat>>,
    texts: Seq<String>,
) -> bool {
    &&& texts.len() == values.len()
    &&& forall|i: int|
        0 <= i < values.len() ==> call_ensures(
            number,
            (values[i].len() as u64,),
            #[trigger] texts[i],
        )
}

/// Whether the texts are texts that `number` returns for the sum of the values
/// of each label set.
pub open spec fn are_sums<F: Fn(u128) -> String>(
    number: F,
    values: Seq<Seq<nat>>,
    texts: Seq<String>,
) -> bool {
    &&& texts.len() == values.len()
    &&& forall|i: int|
        0 <= i < values.len() ==> call_ensures(
            number,
            (sum(values[i]) as u128,),
            #[trigger] texts[i],
        )
}

/// Whether `numbers` are texts that `count` returns for how many finished
/// requests and responses each label set has, and `sum_in_ms` for the sums of
/// their durations and latencies.
pub open spec fn number_texts<F: Fn(u64) -> String, G: Fn(u128) -> String>(
    events: Seq<Event>,
    count: F,
    sum_in_ms: G,
    numbers: Numbers,
) -> bool {
    &&& are_counts(count, all_request_durations(events), numbers.request_total@)
    &&& are_sums(sum_in_ms, all_request_durations(events), numbers.request_duration@)
    &&& are_counts(count, all_response_durations(events), numbers.response_total@)
    &&& are_sums(sum_in_ms, all_response_durations(events), numbers.response_duration@)
    &&& are_sums(sum_in_ms, all_response_latencies(events), numbers.response_latency@)
}

/// Texts that are returned for counters are returned for how many values there
/// are.
proof fn lemma_are_counts<L, F: Fn(u64) -> String>(
    number: F,
    counters: Seq<(L, nat)>,
    values: Seq<Seq<nat>>,
    texts: Seq<String>,
)
    requires
        formatted(number, counts(counters), texts),
        counters.len() == values.len(),
        forall|i: int| 0 <= i < values.len() ==> (#[trigger] counters[i]).1 == values[i].len(),
    ensures
        are_counts(number, values, texts),
{
    assert forall|i: int| 0 <= i < values.len() implies call_ensures(
        number,
        (values[i].len() as u64,),
        #[trigger] texts[i],
    ) by {
        assert(counters[i].1 == values[i].len());
        assert(counts(counters)[i] == values[i].len() as u64);
    }
}

/// Texts that are returned for the sums of histograms are returned for the sums
/// of their values.
proof fn lemma_are_sums<L, F: Fn(u128) -> String>(
    number: F,
    histograms: Seq<(L, HistogramView)>,
    bounds: Seq<BoundView>,
    values: Seq<Seq<nat>>,
    texts: Seq<String>,
)
    requires
        formatted(number, sums(histograms), texts),
        histograms.len() == values.len(),
        forall|i: int|
            0 <= i < values.len() ==> summarizes((#[trigger] histograms[i]).1, bounds, values[i]),
    ensures
        are_sums(number, values, texts),
{
    assert forall|i: int| 0 <= i < values.len() implies call_ensures(
        number,
        (sum(values[i]) as u128,),
        #[trigger] texts[i],
    ) by {
        assert(histograms[i].1.sum == sum(values[i]));
        assert(sums(histograms)[i] == sum(values[i]) as u128);
    }
}

/// The numbers that are served are those of the events.
pub proof fn law_number_texts<F: Fn(u64) -> String, G: Fn(u128) -> String>(
    env_labels: Option<Seq<char>>,
    bounds: Seq<BoundView>,
    events: Seq<Event>,
    count: F,
    sum_in_ms: G,
    numbers: Numbers,
)
    requires
        cover(bounds),
        MetricsView::empty(env_labels, bounds).recorded_all(events).formatted_by(
            count,
            sum_in_ms,
            numbers,
        ),
    ensures
        number_texts(events, count, sum_in_ms, numbers),
{
    let metrics = MetricsView::empty(env_labels, bounds).recorded_all(events);
    law_always_consistent(env_labels, bounds, events);
    law_sets(env_labels, bounds, events);
    let requests = all_request_durations(events);
    let durations = all_response_durations(events);
    let latencies = all_response_latencies(events);
    assert forall|i: int| 0 <= i < requests.len() implies (
    #[trigger] metrics.request_total.values[i]).1 == requests[i].len() by {
        law_request_values(env_labels, bounds, events, i);
    }
    assert forall|i: int| 0 <= i < requests.len() implies summarizes(
        (#[trigger] metrics.request_duration.values[i]).1,
        bounds,
        requests[i],
    ) by {
        law_request_values(env_labels, bounds, events, i);
    }
    assert forall|i: int| 0 <= i < durations.len() implies (
    #[trigger] metrics.response_total.values[i]).1 == durations[i].len() by {
        law_response_values(env_labels, bounds, events, i);
    }
    assert forall|i: int| 0 <= i < durations.len() implies summarizes(
        (#[trigger] metrics.response_duration.values[i]).1,
        bounds,
        durations[i],
    ) by {
        law_response_values(env_labels, bounds, events, i);
    }
    assert forall|i: int| 0 <= i < latencies.len() implies summarizes(
        (#[trigger] metrics.response_latency.values[i]).1,
        bounds,
        latencies[i],
    ) by {
        law_response_values(env_labels, bounds, events, i);
    }
    lemma_are_counts(count, metrics.request_total.values, requests, numbers.request_total@);
    lemma_are_sums(
        sum_in_ms,
        metrics.request_duration.values,
        bounds,
        requests,
        numbers.request_duration@,
    );
    lemma_are_counts(count, metrics.response_total.values, durations, numbers.response_total@);
    lemma_are_sums(
        sum_in_ms,
        metrics.response_duration.values,
        bounds,
        durations,
        numbers.response_duration@,
    );
    lemma_are_sums(
        sum_in_ms,
        metrics.response_latency.values,
        bounds,
        latencies,
        numbers.response_latency@,
    );
}

/// What a scrape answers after any events: under any other path than `/metrics`
/// nothing is found, and under this one there is the text that the events make
/// up, with as many bytes as are announced, in which the numbers are texts that
/// `count` returns for how many streams of each label set have finished, and
/// `sum_in_ms` for the sums of their durations and latencies.
pub proof fn law_scrape<F: Fn(u64) -> String, G: Fn(u128) -> String>(
    env_labels: Option<Seq<char>>,
    bounds: Seq<BoundView>,
    events: Seq<Event>,
    path: Seq<char>,
    count: F,
    sum_in_ms: G,
    reply: ReplyView,
)
    requires
        cover(bounds),
        answers(
            MetricsView::empty(env_labels, bounds).recorded_all(events),
            path,
            count,
            sum_in_ms,
            reply,
        ),
    ensures
        reply is NotFound <==> path != "/metrics"@,
        reply matches ReplyView::Plaintext { content_length, body } ==> {
            &&& content_length == encode_utf8(body).len()
            &&& exists|numbers: Numbers| #[trigger]
                number_texts(events, count, sum_in_ms, numbers) && body == document(
                    env_labels,
                    bounds,
                    events,
                    numbers,
                )
        },
{
    let metrics = MetricsView::empty(env_labels, bounds).recorded_all(events);
    if reply is Plaintext {
        let numbers = choose|numbers: Numbers| #[trigger]
            metrics.formatted_by(count, sum_in_ms, numbers) && reply->body == metrics.text(numbers);
        law_number_texts(env_labels, bounds, events, count, sum_in_ms, numbers);
        law_document(env_labels, bounds, events, numbers);
    }
}

/// Labels are among the label sets of requests exactly if a request with these
/// labels has finished.
pub proof fn law_request_set(events: Seq<Event>, labels: RequestLabelsView)
    ensures
        request_sets(events).contains(labels) <==> request_durations(events, labels).len() > 0,
    decreases events.len(),
{
    if events.len() > 0 {
        law_request_set(events.drop_last(), labels);
        let before = request_sets(events.drop_last());
        match events.last() {
            Event::StreamRequestFail(req, _) => {
                lemma_with_set(before, request_labels(req), labels);
            },
            Event::StreamRequestEnd(req, _) => {
                lemma_with_set(before, request_labels(req), labels);
            },
            _ => {},
        }
    }
}

/// Labels are among the label sets of responses exactly if a response with these
/// labels has finished.
pub proof fn law_response_set(events: Seq<Event>, labels: ResponseLabelsView)
    ensures
        response_sets(events).contains(labels) <==> response_durations(events, labels).len() > 0,
    decreases events.len(),
{
    if events.len() > 0 {
        law_response_set(events.drop_last(), labels);
        let before = response_sets(events.drop_last());
        match events.last() {
            Event::StreamResponseFail(res, _) => {
                lemma_with_set(before, response_labels(res, None), labels);
            },
            Event::StreamResponseEnd(res, end) => {
                lemma_with_set(before, response_labels(res, end.grpc_status), labels);
            },
            _ => {},
        }
    }
}

/// The label sets are those that there were and the new one.
proof fn lemma_with_set<L>(sets: Seq<L>, new: L, labels: L)
    ensures
        with_set(sets, new).contains(labels) <==> sets.contains(labels) || labels == new,
{
    if !sets.contains(new) {
        let after = sets.push(new);
        assert(after[sets.len() as int] == new);
        if sets.contains(labels) {
            let i = choose|i: int| 0 <= i < sets.len() && sets[i] == labels;
            assert(after[i] == labels);
        }
        if after.contains(labels) {
            let i = choose|i: int| 0 <= i < after.len() && after[i] == labels;
            if i < sets.len() {
                assert(sets[i] == labels);
            }
        }
    }
}

/// A part appears in the text that the parts make up.
proof fn lemma_part_appears(parts: Seq<Seq<char>>, i: int, n: int)
    requires
        0 <= i < n <= parts.len(),
    ensures
        appears(parts[i], parts.take(n).flatten()),
        n == parts.len() ==> appears(parts[i], parts.flatten()),
    decreases n,
{
    lemma_flatten_take(parts, n);
    let before = parts.take(n - 1).flatten();
    if i == n - 1 {
        assert(before + parts[i] =~= before + parts[i] + Seq::<char>::empty());
    } else {
        lemma_part_appears(parts, i, n - 1);
        lemma_appears(parts[i], Seq::empty(), before, parts[n - 1]);
        assert(Seq::<char>::empty() + before + parts[n - 1] =~= before + parts[n - 1]);
    }
    if n == parts.len() {
        assert(parts.take(n) =~= parts);
    }
}

/// What appears at the end of a text, after a part of it, appears in the text.
proof fn lemma_appears_after(part: Seq<char>, before: Seq<char>, after: Seq<char>)
    requires
        appears(part, after),
    ensures
        appears(part, before + after),
{
    lemma_appears(part, before, after, Seq::empty());
    assert(before + after + Seq::<char>::empty() =~= before + after);
}

/// The lines of a histogram of `values` are in the text of its metric: for each
/// bound how many of the values are not above it, how many there are, and the
/// text of their sum.
proof fn lemma_histogram_lines_appear<L: LabelSet>(
    metric: MetricView<L::V, HistogramView>,
    bounds: Seq<BoundView>,
    sets: Seq<L::V>,
    values: Seq<Seq<nat>>,
    numbers: Seq<String>,
    i: int,
    b: int,
    whole: Seq<char>,
)
    requires
        metric.values.len() == sets.len(),
        values.len() == sets.len(),
        forall|i: int| 0 <= i < sets.len() ==> (#[trigger] metric.values[i]).0 == sets[i],
        forall|i: int|
            0 <= i < sets.len() ==> summarizes(
                (#[trigger] metric.values[i]).1,
                bounds,
                values[i],
            ),
        0 <= i < sets.len(),
        0 <= b < bounds.len(),
        appears(Metric::<Histogram, L>::text(metric, bounds, numbers), whole),
    ensures
        appears(
            line(
                metric.name + "_bucket"@,
                metric.env_labels,
                L::text(sets[i]) + ",le=\""@ + bounds[b].le + "\""@,
                decimal(within(values[i], bounds[b].upper)),
            ),
            whole,
        ),
        appears(
            line(
                metric.name + "_count"@,
                metric.env_labels,
                L::text(sets[i]),
                decimal(values[i].len()),
            ),
            whole,
        ),
        appears(
            line(metric.name + "_sum"@, metric.env_labels, L::text(sets[i]), numbers[i]@),
            whole,
        ),
        b == bounds.len() - 1 ==> within(values[i], bounds[b].upper) == values[i].len(),
{
    let text = Metric::<Histogram, L>::text(metric, bounds, numbers);
    let labels = L::text(sets[i]);
    let env_labels = metric.env_labels;
    law_histogram_text::<L>(metric, bounds, sets, values, numbers);
    let all = all_histogram_lines::<L>(metric.name, env_labels, bounds, sets, values, numbers);
    let buckets = bucket_lines(metric.name, env_labels, labels, bounds, values[i]);
    let count = line(metric.name + "_count"@, env_labels, labels, decimal(values[i].len()));
    let sum = line(metric.name + "_sum"@, env_labels, labels, numbers[i]@);
    let lines = all[i];
    assert(lines == buckets.flatten() + count + sum);
    lemma_part_appears(all, i, all.len() as int);
    lemma_appears_after(lines, description(metric.name, metric.help, "histogram"@), all.flatten());
    lemma_appears_transitive(lines, text, whole);
    lemma_part_appears(buckets, b, buckets.len() as int);
    assert(lines =~= Seq::<char>::empty() + buckets.flatten() + (count + sum));
    lemma_appears_transitive(buckets[b], buckets.flatten(), lines);
    lemma_appears_transitive(buckets[b], lines, whole);
    lemma_appears_transitive(count, lines, whole);
    assert(lines =~= (buckets.flatten() + count) + sum + Seq::<char>::empty());
    lemma_appears_transitive(sum, lines, whole);
    assert(metric.values[i].0 == sets[i]);
    if b == bounds.len() - 1 {
        assert(cumulative(metric.values[i].1.counts, b + 1) == within(values[i], bounds[b].upper));
    }
}

/// The line of a counter is in the text of its metric.
proof fn lemma_counter_line_appears<L: LabelSet>(
    metric: MetricView<L::V, nat>,
    sets: Seq<L::V>,
    numbers: Seq<String>,
    i: int,
    whole: Seq<char>,
)
    requires
        metric.values.len() == sets.len(),
        forall|i: int| 0 <= i < sets.len() ==> (#[trigger] metric.values[i]).0 == sets[i],
        0 <= i < sets.len(),
        appears(Metric::<Counter, L>::text(metric, numbers), whole),
    ensures
        appears(line(metric.name, metric.env_labels, L::text(sets[i]), numbers[i]@), whole),
{
    law_counter_text::<L>(metric, sets, numbers);
    let lines = counter_lines::<L>(metric.name, metric.env_labels, sets, numbers);
    lemma_part_appears(lines, i, lines.len() as int);
    lemma_appears_after(
        lines[i],
        description(metric.name, metric.help, "counter"@),
        lines.flatten(),
    );
    lemma_appears_transitive(lines[i], Metric::<Counter, L>::text(metric, numbers), whole);
}

/// Whether the lines of a histogram of `values` are in `whole`: the one of the
/// bucket with the bound says how many of the values are not above it, the one
/// of the count how many there are, and the one of the sum what `sum_in_ms`
/// returns for their sum. The bucket with the last bound counts all values.
pub open spec fn values_shown<G: Fn(u128) -> String>(
    name: Seq<char>,
    env_labels: Option<Seq<char>>,
    labels: Seq<char>,
    bounds: Seq<BoundView>,
    b: int,
    values: Seq<nat>,
    sum_in_ms: G,
    whole: Seq<char>,
) -> bool {
    &&& appears(
        line(
            name + "_bucket"@,
            env_labels,
            labels + ",le=\""@ + bounds[b].le + "\""@,
            decimal(within(values, bounds[b].upper)),
        ),
        whole,
    )
    &&& appears(line(name + "_count"@, env_labels, labels, decimal(values.len())), whole)
    &&& b == bounds.len() - 1 ==> within(values, bounds[b].upper) == values.len()
    &&& exists|text: String| #[trigger]
        call_ensures(sum_in_ms, (sum(values) as u128,), text) && appears(
            line(name + "_sum"@, env_labels, labels, text@),
            whole,
        )
}

/// Whether the line of a counter is in `whole`, with a text that `count` returns
/// for how many there are.
pub open spec fn count_shown<F: Fn(u64) -> String>(
    name: Seq<char>,
    env_labels: Option<Seq<char>>,
    labels: Seq<char>,
    n: nat,
    count: F,
    whole: Seq<char>,
) -> bool {
    exists|text: String| #[trigger]
        call_ensures(count, (n as u64,), text) && appears(
            line(name, env_labels, labels, text@),
            whole,
        )
}

/// What is served of the finished requests of a label set, after any events: how
/// many there were, for each bound how many took no longer, and the sum of their
/// durations.
pub proof fn law_requests_served<F: Fn(u64) -> String, G: Fn(u128) -> String>(
    env_labels: Option<Seq<char>>,
    bounds: Seq<BoundView>,
    events: Seq<Event>,
    labels: RequestLabelsView,
    b: int,
    count: F,
    sum_in_ms: G,
    reply: ReplyView,
)
    requires
        cover(bounds),
        request_durations(events, labels).len() > 0,
        0 <= b < bounds.len(),
        answers(
            MetricsView::empty(env_labels, bounds).recorded_all(events),
            "/metrics"@,
            count,
            sum_in_ms,
            reply,
        ),
    ensures
        reply is Plaintext,
        count_shown(
            "request_total"@,
            env_labels,
            <RequestLabels as LabelSet>::text(labels),
            request_durations(events, labels).len(),
            count,
            reply->body,
        ),
        values_shown(
            "request_duration_ms"@,
            env_labels,
            <RequestLabels as LabelSet>::text(labels),
            bounds,
            b,
            request_durations(events, labels),
            sum_in_ms,
            reply->body,
        ),
{
    let metrics = MetricsView::empty(env_labels, bounds).recorded_all(events);
    let sets = request_sets(events);
    let values = all_request_durations(events);
    let whole = reply->body;
    let numbers = choose|numbers: Numbers| #[trigger]
        metrics.formatted_by(count, sum_in_ms, numbers) && whole == metrics.text(numbers);
    law_number_texts(env_labels, bounds, events, count, sum_in_ms, numbers);
    law_names(env_labels, bounds, events);
    law_environment_everywhere(env_labels, bounds, events);
    law_always_consistent(env_labels, bounds, events);
    law_sets(env_labels, bounds, events);
    law_request_set(events, labels);
    let i = choose|i: int| 0 <= i < sets.len() && sets[i] == labels;
    assert forall|j: int| 0 <= j < sets.len() implies {
        &&& (#[trigger] metrics.request_duration.values[j]).0 == sets[j]
        &&& summarizes(metrics.request_duration.values[j].1, bounds, values[j])
    } by {
        law_request_values(env_labels, bounds, events, j);
    }
    law_metrics_served(metrics, numbers);
    lemma_counter_line_appears::<RequestLabels>(
        metrics.request_total,
        sets,
        numbers.request_total@,
        i,
        whole,
    );
    lemma_histogram_lines_appear::<RequestLabels>(
        metrics.request_duration,
        bounds,
        sets,
        values,
        numbers.request_duration@,
        i,
        b,
        whole,
    );
    assert(call_ensures(count, (values[i].len() as u64,), numbers.request_total@[i]));
    assert(call_ensures(sum_in_ms, (sum(values[i]) as u128,), numbers.request_duration@[i]));
}

/// What is served of the finished responses of a label set, after any events:
/// how many there were, for each bound how many took no longer, from the
/// response on and from the request on, and the sums of their durations and of
/// their latencies.
pub proof fn law_responses_served<F: Fn(u64) -> String, G: Fn(u128) -> String>(
    env_labels: Option<Seq<char>>,
    bounds: Seq<BoundView>,
    events: Seq<Event>,
    labels: ResponseLabelsView,
    b: int,
    count: F,
    sum_in_ms: G,
    reply: ReplyView,
)
    requires
        cover(bounds),
        response_durations(events, labels).len() > 0,
        0 <= b < bounds.len(),
        answers(
            MetricsView::empty(env_labels, bounds).recorded_all(events),
            "/metrics"@,
            count,
            sum_in_ms,
            reply,
        ),
    ensures
        reply is Plaintext,
        count_shown(
            "response_total"@,
            env_labels,
            <ResponseLabels as LabelSet>::text(labels),
            response_durations(events, labels).len(),
            count,
            reply->body,
        ),
        values_shown(
            "response_duration_ms"@,
            env_labels,
            <ResponseLabels as LabelSet>::text(labels),
            bounds,
            b,
            response_durations(events, labels),
            sum_in_ms,
            reply->body,
        ),
        values_shown(
            "response_latency_ms"@,
            env_labels,
            <ResponseLabels as LabelSet>::text(labels),
            bounds,
            b,
            response_latencies(events, labels),
            sum_in_ms,
            reply->body,
        ),
{
    let metrics = MetricsView::empty(env_labels, bounds).recorded_all(events);
    let sets = response_sets(events);
    let durations = all_response_durations(events);
    let latencies = all_response_latencies(events);
    let whole = reply->body;
    let numbers = choose|numbers: Numbers| #[trigger]
        metrics.formatted_by(count, sum_in_ms, numbers) && whole == metrics.text(numbers);
    law_number_texts(env_labels, bounds, events, count, sum_in_ms, numbers);
    law_names(env_labels, bounds, events);
    law_environment_everywhere(env_labels, bounds, events);
    law_always_consistent(env_labels, bounds, events);
    law_sets(env_labels, bounds, events);
    law_response_set(events, labels);
    let i = choose|i: int| 0 <= i < sets.len() && sets[i] == labels;
    assert forall|j: int| 0 <= j < sets.len() implies {
        &&& (#[trigger] metrics.response_duration.values[j]).0 == sets[j]
        &&& summarizes(metrics.response_duration.values[j].1, bounds, durations[j])
    } by {
        law_response_values(env_labels, bounds, events, j);
    }
    assert forall|j: int| 0 <= j < sets.len() implies {
        &&& (#[trigger] metrics.response_latency.values[j]).0 == sets[j]
        &&& summarizes(metrics.response_latency.values[j].1, bounds, latencies[j])
    } by {
        law_response_values(env_labels, bounds, events, j);
    }
    law_metrics_served(metrics, numbers);
    lemma_counter_line_appears::<ResponseLabels>(
        metrics.response_total,
        sets,
        numbers.response_total@,
        i,
        whole,
    );
    lemma_histogram_lines_appear::<ResponseLabels>(
        metrics.response_duration,
        bounds,
        sets,
        durations,
        numbers.response_duration@,
        i,
        b,
        whole,
    );
    lemma_histogram_lines_appear::<ResponseLabels>(
        metrics.response_latency,
        bounds,
        sets,
        latencies,
        numbers.response_latency@,
        i,
        b,
        whole,
    );
    assert(call_ensures(count, (durations[i].len() as u64,), numbers.response_total@[i]));
    assert(call_ensures(sum_in_ms, (sum(durations[i]) as u128,), numbers.response_duration@[i]));
    assert(call_ensures(sum_in_ms, (sum(latencies[i]) as u128,), numbers.response_latency@[i]));
}

} // verus!

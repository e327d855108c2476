//! What recording an event does, in terms of the event's fields.
use crate::event::{Event, Request, Response};
use crate::labels::{OutboundLabelsView, RequestLabelsView, ResponseLabelsView};
use crate::latency::{cover, law_observes, observes, BoundView, HistogramView};
use crate::laws::same_description;
use crate::metric::{contains, distinct, is_at, position, value_or, MetricView};
use crate::metrics::{
    incremented, measured, paired, MetricsView, Observation,
};
use vstd::prelude::*;

verus! {

/// The labels that a request is to have: the authority of its URI as it stands,
/// or an empty one where the URI has none, and, for an outbound request, labels
/// on a destination of which nothing is known.
pub open spec fn request_labels(req: Request) -> RequestLabelsView {
    RequestLabelsView {
        outbound_labels: match req.outbound {
            true => Some(OutboundLabelsView { dst: None, namespace: None }),
            false => None,
        },
        authority: if req.uri@ is Some {
            req.uri@->0
        } else {
            Seq::empty()
        },
    }
}

/// The labels that a response is to have: those of its request, its status, and
/// the gRPC status, if there was one.
pub open spec fn response_labels(res: Response, grpc_status: Option<u32>) -> ResponseLabelsView {
    ResponseLabelsView {
        request_labels: request_labels(res.request),
        status_code: res.status,
        grpc_status_code: grpc_status,
    }
}

/// Whether the URI's authority, if there is one, is not empty, as in any URI
/// that was parsed.
pub open spec fn has_proper_uri(req: Request) -> bool {
    req.uri@ matches Some(authority) ==> authority.len() > 0
}

/// Requests have the same labels exactly if they have the same direction and
/// the same authority.
pub proof fn law_request_labels(a: Request, b: Request)
    requires
        has_proper_uri(a),
        has_proper_uri(b),
    ensures
        RequestLabelsView::of(a) == RequestLabelsView::of(b) <==> a.outbound == b.outbound
            && a.uri@ == b.uri@,
        a.uri@ matches Some(authority) ==> RequestLabelsView::of(a).authority == authority,
        a.uri@ is None ==> RequestLabelsView::of(a).authority.len() == 0,
        RequestLabelsView::of(a).outbound_labels is Some <==> a.outbound,
        RequestLabelsView::of(a) == request_labels(a),
        request_labels(a) == request_labels(b) <==> a.outbound == b.outbound && a.uri@ == b.uri@,
        a.uri@ matches Some(authority) ==> request_labels(a).authority == authority,
{
}

/// Responses have the same labels exactly if they have the same status and the
/// same gRPC status, and their requests have the same direction and the same
/// authority.
pub proof fn law_response_labels(
    a: Response,
    a_grpc_status: Option<u32>,
    b: Response,
    b_grpc_status: Option<u32>,
)
    requires
        has_proper_uri(a.request),
        has_proper_uri(b.request),
    ensures
        ResponseLabelsView::of(a, a_grpc_status) == ResponseLabelsView::of(b, b_grpc_status) <==> {
            &&& a.request.outbound == b.request.outbound
            &&& a.request.uri@ == b.request.uri@
            &&& a.status == b.status
            &&& a_grpc_status == b_grpc_status
        },
        ResponseLabelsView::of(a, a_grpc_status).status_code == a.status,
        ResponseLabelsView::of(a, a_grpc_status).grpc_status_code == a_grpc_status,
        ResponseLabelsView::of(a, a_grpc_status) == response_labels(a, a_grpc_status),
{
    law_request_labels(a.request, b.request);
}

/// Whether `after` are the counters `before` with that of `labels` one higher:
/// in its place, or at the end, where there was none.
pub open spec fn counts_one<L>(
    before: Seq<(L, nat)>,
    after: Seq<(L, nat)>,
    labels: L,
) -> bool {
    ||| exists|i: int|
        {
            &&& 0 <= i < before.len()
            &&& (#[trigger] before[i]).0 == labels
            &&& after == before.update(i, (labels, before[i].1 + 1))
        }
    ||| {
        &&& forall|i: int| 0 <= i < before.len() ==> (#[trigger] before[i]).0 != labels
        &&& after == before.push((labels, 1))
    }
}

/// Whether `after` are the histograms `before` with `value` observed in that of
/// `labels`: in its place, or at the end, where there was none.
pub open spec fn measures_one<L>(
    before: Seq<(L, HistogramView)>,
    after: Seq<(L, HistogramView)>,
    bounds: Seq<BoundView>,
    labels: L,
    value: nat,
) -> bool {
    ||| exists|i: int|
        {
            &&& 0 <= i < before.len()
            &&& (#[trigger] before[i]).0 == labels
            &&& after == before.update(i, (labels, after[i].1))
            &&& observes(before[i].1, after[i].1, bounds, value)
        }
    ||| {
        &&& forall|i: int| 0 <= i < before.len() ==> (#[trigger] before[i]).0 != labels
        &&& after.len() > 0
        &&& after == before.push((labels, after.last().1))
        &&& observes(
            HistogramView { counts: Seq::new(bounds.len(), |b: int| 0nat), sum: 0 },
            after.last().1,
            bounds,
            value,
        )
    }
}

/// Whether `after` are the metrics `before` with one more request, which took
/// `duration`: its labels are counted once more in `request_total`, the duration
/// is observed under them in `request_duration`, and nothing of responses has
/// changed.
pub open spec fn adds_request(
    before: MetricsView,
    after: MetricsView,
    req: Request,
    duration: nat,
) -> bool {
    &&& counts_one(before.request_total.values, after.request_total.values, request_labels(req))
    &&& measures_one(
        before.request_duration.values,
        after.request_duration.values,
        before.bounds,
        request_labels(req),
        duration,
    )
    &&& after.response_total == before.response_total
    &&& after.response_duration == before.response_duration
    &&& after.response_latency == before.response_latency
}

/// Whether `after` are the metrics `before` with one more response, which took
/// `duration`, and `latency` from the request on: its labels are counted once
/// more in `response_total`, the duration is observed under them in
/// `response_duration` and the latency in `response_latency`, and nothing of
/// requests has changed.
pub open spec fn adds_response(
    before: MetricsView,
    after: MetricsView,
    labels: ResponseLabelsView,
    duration: nat,
    latency: nat,
) -> bool {
    &&& counts_one(before.response_total.values, after.response_total.values, labels)
    &&& measures_one(
        before.response_duration.values,
        after.response_duration.values,
        before.bounds,
        labels,
        duration,
    )
    &&& measures_one(
        before.response_latency.values,
        after.response_latency.values,
        before.bounds,
        labels,
        latency,
    )
    &&& after.request_total == before.request_total
    &&& after.request_duration == before.request_duration
}

/// Whether `after` are the metrics `before` with the event recorded. Every
/// request and every response that ended or failed is recorded, whatever its
/// direction: a request with the time since it opened, a response with the time
/// since it opened as its duration and the time since its request opened as its
/// latency. Nothing is recorded of any other event.
pub open spec fn records(before: MetricsView, event: Event, after: MetricsView) -> bool {
    &&& after.bounds == before.bounds
    &&& same_description(before.request_total, after.request_total)
    &&& same_description(before.request_duration, after.request_duration)
    &&& same_description(before.response_total, after.response_total)
    &&& same_description(before.response_duration, after.response_duration)
    &&& same_description(before.response_latency, after.response_latency)
    &&& match event {
        Event::StreamRequestFail(req, fail) => adds_request(
            before,
            after,
            req,
            fail.since_request_open as nat,
        ),
        Event::StreamRequestEnd(req, end) => adds_request(
            before,
            after,
            req,
            end.since_request_open as nat,
        ),
        Event::StreamResponseFail(res, fail) => adds_response(
            before,
            after,
            response_labels(res, None),
            fail.since_response_open as nat,
            fail.since_request_open as nat,
        ),
        Event::StreamResponseEnd(res, end) => adds_response(
            before,
            after,
            response_labels(res, end.grpc_status),
            end.since_response_open as nat,
            end.since_request_open as nat,
        ),
        Event::StreamRequestOpen(_) | Event::StreamResponseOpen(_) => after == before,
        Event::TransportOpen | Event::TransportClose => after == before,
    }
}

/// Whether no counter of `labels` is at the largest number that it can hold.
pub open spec fn can_count<L>(counters: Seq<(L, nat)>, labels: L) -> bool {
    forall|i: int|
        0 <= i < counters.len() && (#[trigger] counters[i]).0 == labels ==> counters[i].1
            < u64::MAX
}

/// Whether the event can be recorded: a request or a response that ended or
/// failed if its counter can go up, and any other event always.
pub open spec fn can_record(metrics: MetricsView, event: Event) -> bool {
    match event {
        Event::StreamRequestFail(req, _) => can_count(
            metrics.request_total.values,
            request_labels(req),
        ),
        Event::StreamRequestEnd(req, _) => can_count(
            metrics.request_total.values,
            request_labels(req),
        ),
        Event::StreamResponseFail(res, _) => can_count(
            metrics.response_total.values,
            response_labels(res, None),
        ),
        Event::StreamResponseEnd(res, end) => can_count(
            metrics.response_total.values,
            response_labels(res, end.grpc_status),
        ),
        Event::StreamRequestOpen(_) | Event::StreamResponseOpen(_) => true,
        Event::TransportOpen | Event::TransportClose => true,
    }
}

/// Counting raises the counter of the labels by one.
proof fn lemma_counts_one<L>(metric: MetricView<L, nat>, labels: L)
    ensures
        counts_one(metric.values, incremented(metric, labels).values, labels),
{
    let values = metric.values;
    if contains(values, labels) {
        let i = position(values, labels);
        assert(is_at(values, i, labels));
        assert(values[i].0 == labels);
    } else {
        assert forall|i: int| 0 <= i < values.len() implies (#[trigger] values[i]).0 != labels by {
            assert(!is_at(values, i, labels));
        }
    }
}

/// Measuring observes the value in the histogram of the labels.
proof fn lemma_measures_one<L>(
    counters: Seq<(L, nat)>,
    metric: MetricView<L, HistogramView>,
    bounds: Seq<BoundView>,
    labels: L,
    value: nat,
)
    requires
        cover(bounds),
        paired(counters, metric.values, bounds),
        value <= u64::MAX,
    ensures
        measures_one(
            metric.values,
            measured(metric, bounds, labels, value).values,
            bounds,
            labels,
            value,
        ),
{
    let values = metric.values;
    let after = measured(metric, bounds, labels, value).values;
    if contains(values, labels) {
        let i = position(values, labels);
        assert(is_at(values, i, labels));
        assert(counters[i].0 == values[i].0);
        law_observes(values[i].1, bounds, value);
        assert(after =~= values.update(i, (labels, after[i].1)));
    } else {
        assert forall|i: int| 0 <= i < values.len() implies (#[trigger] values[i]).0 != labels by {
            assert(!is_at(values, i, labels));
        }
        let empty = HistogramView { counts: Seq::new(bounds.len(), |b: int| 0nat), sum: 0 };
        assert(empty =~= HistogramView::empty(bounds.len()));
        law_observes(empty, bounds, value);
        assert(after =~= values.push((labels, after.last().1)));
    }
}

/// Recording an event does what its fields say.
pub proof fn law_records(metrics: MetricsView, event: Event)
    requires
        metrics.consistent(),
    ensures
        records(metrics, event, metrics.recorded(event.observation())),
        event matches Event::StreamRequestFail(req, fail) ==> adds_request(
            metrics,
            metrics.recorded(event.observation()),
            req,
            fail.since_request_open as nat,
        ),
        event matches Event::StreamRequestEnd(req, end) ==> adds_request(
            metrics,
            metrics.recorded(event.observation()),
            req,
            end.since_request_open as nat,
        ),
        event matches Event::StreamResponseFail(res, fail) ==> adds_response(
            metrics,
            metrics.recorded(event.observation()),
            response_labels(res, None),
            fail.since_response_open as nat,
            fail.since_request_open as nat,
        ),
        event matches Event::StreamResponseEnd(res, end) ==> adds_response(
            metrics,
            metrics.recorded(event.observation()),
            response_labels(res, end.grpc_status),
            end.since_response_open as nat,
            end.since_request_open as nat,
        ),
{
    match event.observation() {
        Observation::Nothing => {},
        Observation::Request { request, duration } => {
            lemma_counts_one(metrics.request_total, request);
            lemma_measures_one(
                metrics.request_total.values,
                metrics.request_duration,
                metrics.bounds,
                request,
                duration,
            );
        },
        Observation::Response { response, duration, latency } => {
            lemma_counts_one(metrics.response_total, response);
            lemma_measures_one(
                metrics.response_total.values,
                metrics.response_duration,
                metrics.bounds,
                response,
                duration,
            );
            lemma_measures_one(
                metrics.response_total.values,
                metrics.response_latency,
                metrics.bounds,
                response,
                latency,
            );
        },
    }
}

/// The counter of the labels can go up exactly if it is not at the largest
/// number that it can hold.
proof fn lemma_can_count<L>(counters: Seq<(L, nat)>, labels: L)
    requires
        distinct(counters),
    ensures
        value_or(counters, labels, 0) < u64::MAX <==> can_count(counters, labels),
{
    if contains(counters, labels) {
        let p = position(counters, labels);
        assert(is_at(counters, p, labels));
        assert forall|i: int| 0 <= i < counters.len() && (#[trigger] counters[i]).0
            == labels implies i == p by {
            if i < p {
                assert(counters[i].0 != counters[p].0);
            }
            if p < i {
                assert(counters[p].0 != counters[i].0);
            }
        }
    } else {
        assert forall|i: int| 0 <= i < counters.len() implies (#[trigger] counters[i]).0
            != labels by {
            assert(!is_at(counters, i, labels));
        }
    }
}

/// An event can be recorded exactly if its counter is not at the largest number
/// that it can hold.
pub proof fn law_can_record(metrics: MetricsView, event: Event)
    requires
        metrics.consistent(),
    ensures
        metrics.has_room(event.observation()) <==> can_record(metrics, event),
{
    match event.observation() {
        Observation::Nothing => {},
        Observation::Request { request, .. } => {
            lemma_can_count(metrics.request_total.values, request);
        },
        Observation::Response { response, .. } => {
            lemma_can_count(metrics.response_total.values, response);
        },
    }
}

} // verus!

//! The side of the metrics that receives updates.
use crate::event::Event;
use crate::labels::{RequestLabels, ResponseLabels};
use crate::laws::{law_histograms_never_fall, law_order_kept};
use crate::metrics::Metrics;
use crate::recording::{adds_request, adds_response, law_records, records, response_labels};
use std::sync::Arc;
use vstd::prelude::*;

verus! {

/// Tracks Prometheus metrics.
#[derive(Debug)]
pub struct Aggregate<'a> {
    /// The metrics, borrowed for as long as updates are made.
    pub metrics: &'a mut Metrics,
}

impl<'a> Aggregate<'a> {
    /// Borrows the metrics to update them.
    pub fn new(metrics: &'a mut Metrics) -> (aggregate: Self)
        ensures
            *aggregate.metrics == *old(metrics),
            *final(aggregate.metrics) == *final(metrics),
    {
        Aggregate { metrics }
    }

    /// Observe the given event.
    pub fn record_event(&mut self, event: &Event)
        requires
            old(self).metrics.wf(),
            old(self).metrics.view().has_room(event.observation()),
        ensures
            final(self).metrics.wf(),
            final(self).metrics.view() == old(self).metrics.view().recorded(event.observation()),
            records(old(self).metrics.view(), *event, final(self).metrics.view()),
            *event matches Event::StreamRequestFail(req, fail) ==> adds_request(
                old(self).metrics.view(),
                final(self).metrics.view(),
                req,
                fail.since_request_open as nat,
            ),
            *event matches Event::StreamRequestEnd(req, end) ==> adds_request(
                old(self).metrics.view(),
                final(self).metrics.view(),
                req,
                end.since_request_open as nat,
            ),
            *event matches Event::StreamResponseFail(res, fail) ==> adds_response(
                old(self).metrics.view(),
                final(self).metrics.view(),
                response_labels(res, None),
                fail.since_response_open as nat,
                fail.since_request_open as nat,
            ),
            *event matches Event::StreamResponseEnd(res, end) ==> adds_response(
                old(self).metrics.view(),
                final(self).metrics.view(),
                response_labels(res, end.grpc_status),
                end.since_response_open as nat,
                end.since_request_open as nat,
            ),
            old(self).metrics.view().kept_in(final(self).metrics.view()),
            old(self).metrics.view().histograms_grow_in(final(self).metrics.view()),
            *final(final(self).metrics) == *final(old(self).metrics),
    {
        proof {
            self.metrics.lemma_consistent();
            law_order_kept(self.metrics.view(), *event);
            law_histograms_never_fall(self.metrics.view(), *event);
            law_records(self.metrics.view(), *event);
        }
        match event {
            Event::StreamRequestOpen(_) | Event::StreamResponseOpen(_) => {
                // Do nothing; we'll record metrics for the request or response
                // when the stream *finishes*.
            },
            Event::StreamRequestFail(req, fail) => {
                let labels = Arc::new(RequestLabels::new(req));
                self.metrics.record_request(&labels, fail.since_request_open);
            },
            Event::StreamRequestEnd(req, end) => {
                let labels = Arc::new(RequestLabels::new(req));
                self.metrics.record_request(&labels, end.since_request_open);
            },
            Event::StreamResponseEnd(res, end) => {
                let labels = Arc::new(ResponseLabels::new(res, end.grpc_status));
                self.metrics.record_response(
                    &labels,
                    end.since_response_open,
                    end.since_request_open,
                );
            },
            Event::StreamResponseFail(res, fail) => {
                let labels = Arc::new(ResponseLabels::new(res, None));
                self.metrics.record_response(
                    &labels,
                    fail.since_response_open,
                    fail.since_request_open,
                );
            },
            Event::TransportOpen | Event::TransportClose => {
                // No metrics are collected around transport events.
            },
        }
    }
}

} // verus!

//! The side of the metrics that answers scrapes.
use crate::metrics::{reads, Metrics, MetricsView, Numbers};
use vstd::prelude::*;
use vstd::utf8::encode_utf8;

verus! {

/// The path under which the metrics are served.
pub const METRICS_PATH: &'static str = "/metrics";

/// Whether the metrics are served under `path`.
pub fn is_served(path: &str) -> (served: bool)
    ensures
        served == (path@ == METRICS_PATH@),
        served <==> path@ == "/metrics"@,
{
    path.to_owned() == METRICS_PATH.to_owned()
}

/// The answer to a request.
#[derive(Debug, PartialEq, Eq)]
pub enum Reply {
    /// There is nothing under the path.
    NotFound,
    /// A plain text.
    Plaintext {
        /// The number of bytes of the body.
        content_length: u64,
        body: String,
    },
}

/// The value of a `Reply`.
pub enum ReplyView {
    NotFound,
    Plaintext { content_length: nat, body: Seq<char> },
}

impl View for Reply {
    type V = ReplyView;

    open spec fn view(&self) -> ReplyView {
        match self {
            Reply::NotFound => ReplyView::NotFound,
            Reply::Plaintext { content_length, body } => ReplyView::Plaintext {
                content_length: *content_length as nat,
                body: body@,
            },
        }
    }
}

/// Whether `reply` answers a request for `path`, where `count` and `sum_in_ms`
/// return the texts of counters and of the sums of histograms: the text of the
/// metrics for the path of the metrics, and nothing for any other.
pub open spec fn answers<F: Fn(u64) -> String, G: Fn(u128) -> String>(
    metrics: MetricsView,
    path: Seq<char>,
    count: F,
    sum_in_ms: G,
    reply: ReplyView,
) -> bool {
    match reply {
        ReplyView::NotFound => path != METRICS_PATH@,
        ReplyView::Plaintext { content_length, body } => {
            &&& path == METRICS_PATH@
            &&& content_length == encode_utf8(body).len()
            &&& exists|numbers: Numbers| #[trigger]
                metrics.formatted_by(count, sum_in_ms, numbers) && body == metrics.text(numbers)
        },
    }
}

/// Serves Prometheus metrics.
#[derive(Debug)]
pub struct Serve<'a> {
    /// The metrics, borrowed for as long as requests are answered.
    pub metrics: &'a Metrics,
}

impl<'a> Serve<'a> {
    /// Borrows the metrics to serve them.
    pub fn new(metrics: &'a Metrics) -> (serve: Self)
        ensures
            serve.metrics == metrics,
    {
        Serve { metrics }
    }

    /// Answers a request for `path`: with the text of the metrics for the path
    /// of the metrics, and with nothing for any other. `count` and `sum_in_ms`
    /// return the texts of counters and of the sums of histograms.
    pub fn call<F: Fn(u64) -> String, G: Fn(u128) -> String>(
        &self,
        path: &str,
        count: &F,
        sum_in_ms: &G,
    ) -> (reply: Reply)
        requires
            self.metrics.wf(),
            forall|n: u64| call_requires(*count, (n,)),
            forall|n: u128| call_requires(*sum_in_ms, (n,)),
        ensures
            answers(self.metrics@, path@, *count, *sum_in_ms, reply@),
            reply is NotFound <==> path@ != "/metrics"@,
            reply matches Reply::Plaintext { content_length, body } ==> {
                &&& content_length == encode_utf8(body@).len()
                &&& exists|numbers: Numbers| #[trigger]
                    reads(*count, *sum_in_ms, self.metrics@, numbers) && body@
                        == self.metrics@.text(numbers)
            },
    {
        if !is_served(path) {
            return Reply::NotFound;
        }
        let numbers = self.metrics.numbers(count, sum_in_ms);
        let mut body = String::new();
        self.metrics.fmt(&numbers, &mut body);
        assert(body@ =~= self.metrics@.text(numbers));
        let content_length = body.as_str().as_bytes().len() as u64;
        Reply::Plaintext { content_length, body }
    }
}

} // verus!

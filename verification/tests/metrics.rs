use prometheus_metrics::event::{
    Request, Response, StreamRequestEnd, StreamRequestFail, StreamResponseEnd, StreamResponseFail,
    Uri,
};
use prometheus_metrics::labels::{LabelSet, RequestLabels, ResponseLabels};
use prometheus_metrics::latency::Histogram;
use prometheus_metrics::metric::{Counter, Metric};
use prometheus_metrics::serve::is_served;
use prometheus_metrics::{Aggregate, Bound, BucketBounds, Event, Metrics, Reply, Serve};
use std::sync::Arc;

fn bounds() -> BucketBounds {
    BucketBounds::new(vec![
        Bound { upper: 10, le: "1".to_string() },
        Bound { upper: 20, le: "2".to_string() },
        Bound { upper: u64::MAX, le: "+Inf".to_string() },
    ])
    .unwrap()
}

fn count(n: u64) -> String {
    format!("{}", n as f64)
}

fn sum_in_ms(sum: u128) -> String {
    format!("{}", sum as f64 / 10.0)
}

fn request(outbound: bool, uri: &str) -> Request {
    Request { outbound, uri: Uri::parse(uri).unwrap() }
}

fn request_end(uri: &str, since_request_open: u64) -> Event {
    Event::StreamRequestEnd(request(false, uri), StreamRequestEnd { since_request_open })
}

fn request_fail(uri: &str, since_request_open: u64) -> Event {
    Event::StreamRequestFail(request(false, uri), StreamRequestFail { since_request_open })
}

fn response(uri: &str, status: u16) -> Response {
    Response { request: request(true, uri), status }
}

fn record(metrics: &mut Metrics, events: &[Event]) {
    let mut aggregate = Aggregate::new(metrics);
    for event in events {
        assert!(aggregate.metrics.has_room_for(event));
        aggregate.record_event(event);
    }
}

fn scrape(metrics: &Metrics) -> String {
    match Serve::new(metrics).call("/metrics", &count, &sum_in_ms) {
        Reply::Plaintext { body, .. } => body,
        Reply::NotFound => panic!("no metrics"),
    }
}

const EMPTY: &str = "\
# HELP request_total A counter of the number of requests the proxy has received.
# TYPE request_total counter

# HELP request_duration_ms A histogram of the duration of a request. This is measured from when the request headers are received to when the request stream has completed.
# TYPE request_duration_ms histogram

# HELP response_total A counter of the number of responses the proxy has received.
# TYPE response_total counter

# HELP response_duration_ms A histogram of the duration of a response. This is measured from when the response headers are received to when the response stream has completed.
# TYPE response_duration_ms histogram

# HELP response_latency_ms A histogram of the total latency of a response. This is measured from when the request headers are received to when the response stream has completed.
# TYPE response_latency_ms histogram
";

#[test]
fn nothing_recorded() {
    assert_eq!(scrape(&Metrics::new(None, bounds())), EMPTY);
    assert_eq!(scrape(&Metrics::new(Some(Arc::from("a=\"b\"")), bounds())), EMPTY);
}

#[test]
fn opened_streams_and_transports_record_nothing() {
    let mut metrics = Metrics::new(None, bounds());
    record(
        &mut metrics,
        &[
            Event::TransportOpen,
            Event::StreamRequestOpen(request(true, "http://a/")),
            Event::StreamResponseOpen(response("http://a/", 200)),
            Event::TransportClose,
        ],
    );
    assert_eq!(scrape(&metrics), EMPTY);
}

#[test]
fn only_finished_streams_are_recorded() {
    assert!(!Event::TransportOpen.is_recorded());
    assert!(!Event::TransportClose.is_recorded());
    assert!(!Event::StreamRequestOpen(request(false, "/")).is_recorded());
    assert!(!Event::StreamResponseOpen(response("/", 200)).is_recorded());
    assert!(request_end("/", 1).is_recorded());
    assert!(request_fail("/", 1).is_recorded());
    assert!(Event::StreamResponseFail(
        response("/", 200),
        StreamResponseFail { since_request_open: 1, since_response_open: 1 },
    )
    .is_recorded());
}

#[test]
fn requests_are_counted_and_measured() {
    let mut metrics = Metrics::new(None, bounds());
    record(
        &mut metrics,
        &[request_end("http://a/", 5), request_fail("http://a/", 25), request_end("http://a/", 12)],
    );
    let text = scrape(&metrics);
    assert!(text.contains(
        "\
# TYPE request_total counter
request_total{authority=\"a\",direction=\"inbound\"} 3

# HELP request_duration_ms"
    ));
    assert!(text.contains(
        "\
# TYPE request_duration_ms histogram
request_duration_ms_bucket{authority=\"a\",direction=\"inbound\",le=\"1\"} 1
request_duration_ms_bucket{authority=\"a\",direction=\"inbound\",le=\"2\"} 2
request_duration_ms_bucket{authority=\"a\",direction=\"inbound\",le=\"+Inf\"} 3
request_duration_ms_count{authority=\"a\",direction=\"inbound\"} 3
request_duration_ms_sum{authority=\"a\",direction=\"inbound\"} 4.2

# HELP response_total"
    ));
    assert!(text.contains("# TYPE response_total counter\n\n# HELP response_duration_ms"));
}

#[test]
fn responses_are_counted_and_measured() {
    let mut metrics = Metrics::new(None, bounds());
    record(
        &mut metrics,
        &[
            Event::StreamResponseEnd(
                response("http://a/", 200),
                StreamResponseEnd {
                    grpc_status: Some(5),
                    since_request_open: 30,
                    since_response_open: 10,
                },
            ),
            Event::StreamResponseFail(
                response("http://a/", 200),
                StreamResponseFail { since_request_open: 7, since_response_open: 6 },
            ),
        ],
    );
    let text = scrape(&metrics);
    let grpc = "authority=\"a\",direction=\"outbound\",status_code=\"200\"grpc_status_code=\"5\"";
    let failed = "authority=\"a\",direction=\"outbound\",status_code=\"200\"";
    assert!(text.contains(&format!(
        "# TYPE response_total counter\nresponse_total{{{}}} 1\nresponse_total{{{}}} 1\n\n",
        grpc, failed
    )));
    assert!(text.contains(&format!(
        "response_duration_ms_bucket{{{0},le=\"1\"}} 1\n\
         response_duration_ms_bucket{{{0},le=\"2\"}} 1\n\
         response_duration_ms_bucket{{{0},le=\"+Inf\"}} 1\n\
         response_duration_ms_count{{{0}}} 1\n\
         response_duration_ms_sum{{{0}}} 1\n",
        grpc
    )));
    assert!(text.contains(&format!("response_duration_ms_sum{{{}}} 0.6\n", failed)));
    assert!(text.contains(&format!(
        "response_latency_ms_bucket{{{0},le=\"1\"}} 0\n\
         response_latency_ms_bucket{{{0},le=\"2\"}} 0\n\
         response_latency_ms_bucket{{{0},le=\"+Inf\"}} 1\n\
         response_latency_ms_count{{{0}}} 1\n\
         response_latency_ms_sum{{{0}}} 3\n",
        grpc
    )));
    assert!(text.contains(&format!("response_latency_ms_sum{{{}}} 0.7\n", failed)));
    assert!(text.contains("# TYPE request_total counter\n\n"));
}

#[test]
fn label_sets_keep_the_order_in_which_they_came_up() {
    let mut metrics = Metrics::new(None, bounds());
    record(
        &mut metrics,
        &[
            request_end("http://z/", 1),
            request_end("http://b/", 1),
            request_end("http://m/", 1),
            request_end("http://b/", 1),
            request_end("http://a/", 1),
            request_end("http://z/", 1),
        ],
    );
    let text = scrape(&metrics);
    let lines: Vec<&str> =
        text.lines().filter(|line| line.starts_with("request_total{")).collect();
    assert_eq!(
        lines,
        vec![
            "request_total{authority=\"z\",direction=\"inbound\"} 2",
            "request_total{authority=\"b\",direction=\"inbound\"} 2",
            "request_total{authority=\"m\",direction=\"inbound\"} 1",
            "request_total{authority=\"a\",direction=\"inbound\"} 1",
        ]
    );
}

#[test]
fn labels_from_the_environment_come_first() {
    let mut metrics = Metrics::new(Some(Arc::from("env=\"test\"")), bounds());
    record(&mut metrics, &[request_end("http://a/", 1)]);
    let text = scrape(&metrics);
    assert!(text.contains("request_total{env=\"test\",authority=\"a\",direction=\"inbound\"} 1\n"));
    assert!(text.contains(
        "request_duration_ms_bucket{env=\"test\",authority=\"a\",direction=\"inbound\",le=\"1\"} 1\n"
    ));
    assert!(text.contains(
        "request_duration_ms_count{env=\"test\",authority=\"a\",direction=\"inbound\"} 1\n"
    ));
    assert!(text.contains(
        "request_duration_ms_sum{env=\"test\",authority=\"a\",direction=\"inbound\"} 0.1\n"
    ));
}

#[test]
fn empty_labels_from_the_environment_still_have_their_comma() {
    let mut metrics = Metrics::new(Some(Arc::from("")), bounds());
    record(&mut metrics, &[request_end("http://a/", 1)]);
    assert!(scrape(&metrics).contains("request_total{,authority=\"a\",direction=\"inbound\"} 1\n"));
}

#[test]
fn only_the_metrics_path_is_served() {
    assert!(is_served("/metrics"));
    assert!(!is_served("/metric"));
    let metrics = Metrics::new(None, bounds());
    let serve = Serve::new(&metrics);
    assert_eq!(serve.call("/", &count, &sum_in_ms), Reply::NotFound);
    assert_eq!(serve.call("/metrics/", &count, &sum_in_ms), Reply::NotFound);
    assert_eq!(serve.call("", &count, &sum_in_ms), Reply::NotFound);
    assert_eq!(
        serve.call("/metrics", &count, &sum_in_ms),
        Reply::Plaintext { content_length: EMPTY.len() as u64, body: EMPTY.to_string() }
    );
}

#[test]
fn content_length_counts_bytes() {
    let mut metrics = Metrics::new(Some(Arc::from("env=\"\u{e9}\u{20ac}\"")), bounds());
    record(&mut metrics, &[request_end("http://a/", 1)]);
    match Serve::new(&metrics).call("/metrics", &count, &sum_in_ms) {
        Reply::Plaintext { content_length, body } => {
            assert_eq!(content_length, body.len() as u64);
            assert!(body.len() > body.chars().count());
        },
        Reply::NotFound => panic!("no metrics"),
    }
}

#[test]
fn sums_hold_the_longest_durations() {
    let mut metrics = Metrics::new(None, bounds());
    let slow = request_end("http://a/", u64::MAX);
    record(&mut metrics, &[slow.clone(), slow.clone(), slow.clone()]);
    assert!(metrics.has_room_for(&slow));
    let numbers = metrics.numbers(&count, &|sum: u128| format!("{}", sum));
    assert_eq!(numbers.request_total, vec!["3"]);
    assert_eq!(numbers.request_duration, vec!["55340232221128654845"]);
}

#[test]
fn every_event_has_room_at_first() {
    let metrics = Metrics::new(None, bounds());
    assert!(metrics.has_room_for(&Event::TransportOpen));
    assert!(metrics.has_room_for(&request_end("http://a/", 1)));
    assert!(metrics.has_room_for(&request_fail("http://a/", 1)));
}

#[test]
fn failures_are_recorded_like_ends() {
    let mut failed = Metrics::new(None, bounds());
    record(
        &mut failed,
        &[
            request_fail("http://a/", 15),
            Event::StreamResponseFail(
                response("http://a/", 500),
                StreamResponseFail { since_request_open: 30, since_response_open: 20 },
            ),
        ],
    );
    let mut ended = Metrics::new(None, bounds());
    record(
        &mut ended,
        &[
            request_end("http://a/", 15),
            Event::StreamResponseEnd(
                response("http://a/", 500),
                StreamResponseEnd {
                    grpc_status: None,
                    since_request_open: 30,
                    since_response_open: 20,
                },
            ),
        ],
    );
    assert_eq!(scrape(&failed), scrape(&ended));
}

#[test]
fn serving_changes_nothing() {
    let mut metrics = Metrics::new(None, bounds());
    record(&mut metrics, &[request_end("http://a/", 15), request_end("http://b/", 3)]);
    let first = scrape(&metrics);
    assert_eq!(scrape(&metrics), first);
    record(&mut metrics, &[request_end("http://b/", 3)]);
    assert_ne!(scrape(&metrics), first);
}

#[test]
fn a_metric_prints_what_it_is_and_finds_nothing_at_first() {
    let counters = Metric::<Counter, RequestLabels>::new("n", "what it is", None);
    let mut f = String::new();
    counters.fmt(&Vec::new(), &mut f);
    assert_eq!(f, "# HELP n what it is\n# TYPE n counter\n");
    let labels = RequestLabels::new(&request(false, "/"));
    assert!(counters.value(&labels).is_none());

    let histograms = Metric::<Histogram, ResponseLabels>::new("h", "other", None);
    let mut f = String::new();
    histograms.fmt(&bounds(), &Vec::new(), &mut f);
    assert_eq!(f, "# HELP h other\n# TYPE h histogram\n");
    let labels = ResponseLabels::new(&response("/", 200), None);
    assert!(histograms.value(&labels).is_none());
    assert_eq!(labels.to_key().0, "");
}

#[test]
fn numbers_are_printed_as_they_are_formatted() {
    let mut metrics = Metrics::new(None, bounds());
    record(&mut metrics, &[request_end("http://a/", 1), request_end("http://b/", 3)]);
    let numbers = metrics.numbers(&|n: u64| format!("<{}>", n), &|n: u128| format!("[{}]", n));
    assert_eq!(numbers.request_total, vec!["<1>", "<1>"]);
    assert_eq!(numbers.request_duration, vec!["[1]", "[3]"]);
    assert!(numbers.response_total.is_empty());
    let mut f = String::new();
    metrics.fmt(&numbers, &mut f);
    assert!(f.contains("request_total{authority=\"b\",direction=\"inbound\"} <1>\n"));
    assert!(f.contains("request_duration_ms_sum{authority=\"b\",direction=\"inbound\"} [3]\n"));
}

# prometheus_metrics

Prometheus metrics of an HTTP proxy: how many requests and responses there
were, how long they took, by label set, and the text that is served to scrapes.

- `src/event.rs`: the events that metrics are made from.
- `src/labels.rs`: label sets and their text.
- `src/latency.rs`: histograms.
- `src/index.rs`: the `IndexMap` in which label sets are looked up.
- `src/metric.rs`: one metric, with its values by label set, and its text.
- `src/metrics.rs`: all metrics, and what recording an event does to them.
- `src/aggregate.rs`, `src/serve.rs`: recording events, and answering scrapes.
- `src/laws.rs`: what holds after any events, and of what is served.
- `app/`: the metrics behind a lock, and the Hyper service.

Latencies are whole numbers in a unit that the caller chooses, and the bounds of
the buckets are given in that unit; `app/` uses tenths of a millisecond. The
texts of counters and of sums are floating point, so they are made by the
caller.

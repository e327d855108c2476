//! Prometheus metrics of an HTTP proxy: counters and latency histograms, kept
//! by label set, and their text exposition.
pub mod aggregate;
pub mod event;
pub mod exposition;
pub mod index;
pub mod labels;
pub mod latency;
pub mod laws;
pub mod metric;
pub mod metrics;
pub mod recording;
pub mod series;
pub mod serve;
pub mod text;

pub use crate::aggregate::Aggregate;
pub use crate::event::Event;
pub use crate::latency::{Bound, BucketBounds};
pub use crate::metrics::Metrics;
pub use crate::serve::{Reply, Serve};

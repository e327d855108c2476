[package]
name = "prometheus_metrics"
version = "0.1.0"
edition = "2021"
publish = false

[dependencies]
futures = "=0.1.31"
http = "=0.1.21"
hyper = "=0.11.27"
indexmap = "=1.9.3"
log = "=0.4.35"

use prometheus_metrics::latency::{Bound, BucketBounds, Histogram};
use prometheus_metrics::text::fmt_decimal;

fn bound(upper: u64, le: &str) -> Bound {
    Bound { upper, le: le.to_string() }
}

fn bounds() -> BucketBounds {
    BucketBounds::new(vec![bound(10, "1"), bound(20, "2"), bound(u64::MAX, "+Inf")]).unwrap()
}

fn decimal(n: u64) -> String {
    let mut f = String::new();
    fmt_decimal(n, &mut f);
    f
}

#[test]
fn bounds_must_cover_every_value() {
    assert!(BucketBounds::new(vec![]).is_none());
    assert!(BucketBounds::new(vec![bound(10, "1")]).is_none());
    assert!(BucketBounds::new(vec![bound(u64::MAX, "+Inf")]).is_some());
}

#[test]
fn bounds_must_increase() {
    let top = || bound(u64::MAX, "+Inf");
    assert!(BucketBounds::new(vec![bound(20, "2"), bound(10, "1"), top()]).is_none());
    assert!(BucketBounds::new(vec![bound(10, "1"), bound(10, "1"), top()]).is_none());
    assert!(BucketBounds::new(vec![bound(10, "1"), bound(20, "2"), top()]).is_some());
}

#[test]
fn bounds_are_kept() {
    let bounds = bounds().clone();
    assert_eq!(bounds.len(), 3);
    assert_eq!(bounds.le(0), "1");
    assert_eq!(bounds.le(2), "+Inf");
}

#[test]
fn a_bound_is_in_its_bucket() {
    let bounds = bounds();
    assert_eq!(bounds.bucket(0), 0);
    assert_eq!(bounds.bucket(10), 0);
    assert_eq!(bounds.bucket(11), 1);
    assert_eq!(bounds.bucket(20), 1);
    assert_eq!(bounds.bucket(21), 2);
    assert_eq!(bounds.bucket(u64::MAX), 2);
}

#[test]
fn histogram_counts_and_sums() {
    let bounds = bounds();
    let mut histogram = Histogram::new(bounds.len());
    assert_eq!(histogram.len(), 3);
    assert_eq!(histogram.sum(), 0);
    for value in [5, 10, 15, 1000, 7] {
        histogram.observe(&bounds, value);
    }
    let counts: Vec<u64> = (0..histogram.len()).map(|i| histogram.count(i)).collect();
    assert_eq!(counts, vec![3, 1, 1]);
    assert_eq!(histogram.sum(), 1037);
}

#[test]
fn decimals() {
    assert_eq!(decimal(0), "0");
    assert_eq!(decimal(9), "9");
    assert_eq!(decimal(10), "10");
    assert_eq!(decimal(1234567890), "1234567890");
    assert_eq!(decimal(u64::MAX), "18446744073709551615");
}

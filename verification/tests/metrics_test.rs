use std::sync::{Arc, Mutex};

use loadpilot::metrics::{LatencyHistogram, Metrics, MAX_LATENCY_MS};
use loadpilot::number::Fraction;

fn value(f: Fraction) -> f64 {
    f.num as f64 / f.den as f64
}

fn share(percent: u128) -> Fraction {
    Fraction { num: percent, den: 100 }
}

// ── Histogram ────────────────────────────────────────────────────────────────

#[test]
fn histogram_empty_returns_zeros() {
    let h = LatencyHistogram::new();
    assert_eq!(h.count(), 0);
    assert_eq!(value(h.mean_ms()), 0.0);
    assert_eq!(h.max_ms(), 0);
    assert_eq!(h.min_ms(), 0);
    assert_eq!(h.percentile(share(50)), 0);
}

#[test]
fn histogram_single_record() {
    let mut h = LatencyHistogram::new();
    h.record(100);
    assert_eq!(h.count(), 1);
    assert_eq!(value(h.mean_ms()), 100.0);
    assert_eq!(h.max_ms(), 100);
    assert_eq!(h.min_ms(), 100);
}

#[test]
fn histogram_percentile_p50() {
    let mut h = LatencyHistogram::new();
    for ms in [10, 20, 30, 40, 50] {
        h.record(ms);
    }
    assert_eq!(h.percentile(share(50)), 30);
}

#[test]
fn histogram_percentile_p99_uniform() {
    let mut h = LatencyHistogram::new();
    for ms in 1..=100 {
        h.record(ms);
    }
    assert_eq!(h.percentile(share(99)), 99);
}

#[test]
fn histogram_max_min_tracked() {
    let mut h = LatencyHistogram::new();
    h.record(500);
    h.record(10);
    h.record(250);
    assert_eq!(h.max_ms(), 500);
    assert_eq!(h.min_ms(), 10);
}

#[test]
fn histogram_clamps_to_max_bucket() {
    let mut h = LatencyHistogram::new();
    h.record(99_999);
    assert_eq!(h.count(), 1);
    assert_eq!(h.percentile(share(100)), MAX_LATENCY_MS);
}

#[test]
fn histogram_mean_is_correct() {
    let mut h = LatencyHistogram::new();
    h.record(100);
    h.record(200);
    h.record(300);
    assert_eq!(value(h.mean_ms()), 200.0);
}

#[test]
fn percentile_is_the_latency_of_its_rank() {
    let mut h = LatencyHistogram::new();
    for ms in [7, 3, 3, 9, 1] {
        h.record(ms);
    }
    let sorted = [1, 3, 3, 7, 9];
    for p in [1u128, 20, 21, 50, 80, 95, 100] {
        let rank = (5 * p).div_ceil(100) as usize;
        assert_eq!(h.percentile(share(p)), sorted[rank - 1]);
    }
}

#[test]
fn reported_percentiles_are_in_order() {
    let mut h = LatencyHistogram::new();
    for ms in 0..1000 {
        h.record(ms * 7 % 311);
    }
    let s = h.snapshot();
    assert!(s.p50_ms.num <= s.p95_ms.num);
    assert!(s.p95_ms.num <= s.p99_ms.num);
    assert_eq!(s.max_ms, Fraction { num: 310, den: 1 });
    assert_eq!(s.min_ms, Fraction { num: 0, den: 1 });
}

// ── Metrics ──────────────────────────────────────────────────────────────────

#[test]
fn metrics_record_success_increments_total() {
    let mut m = Metrics::new();
    m.record_success(50);
    m.record_success(100);
    assert_eq!(m.requests_total, 2);
    assert_eq!(m.errors_total, 0);
}

#[test]
fn metrics_record_error_increments_both_totals() {
    let mut m = Metrics::new();
    m.record_error(0);
    assert_eq!(m.requests_total, 1);
    assert_eq!(m.errors_total, 1);
}

#[test]
fn metrics_drain_window_resets_counters() {
    let mut m = Metrics::new();
    m.record_success(10);
    m.record_success(20);
    m.record_error(5);
    let (reqs, errs) = m.drain_window();
    assert_eq!(reqs, 3);
    assert_eq!(errs, 1);
    let (reqs2, errs2) = m.drain_window();
    assert_eq!(reqs2, 0);
    assert_eq!(errs2, 0);
    assert_eq!(m.requests_total, 3);
}

#[test]
fn metrics_clone_shares_state() {
    let m = Arc::new(Mutex::new(Metrics::new()));
    let m2 = Arc::clone(&m);
    m.lock().unwrap().record_success(42);
    assert_eq!(m2.lock().unwrap().requests_total, 1);
}

#[test]
fn task_snapshot_tracks_per_task() {
    let mut m = Metrics::new();
    m.record_success_task("login", 50);
    m.record_success_task("login", 100);
    m.record_error_task("search", 200);

    assert_eq!(m.requests_total, 3);

    let snaps = m.task_snapshots();
    assert_eq!(snaps.len(), 2);

    let login = snaps.iter().find(|s| s.name == "login").unwrap();
    assert_eq!(login.requests, 2);
    assert_eq!(login.errors, 0);
    assert!(value(login.latency.mean_ms) > 0.0);
    assert_eq!(login.latency.mean_ms, Fraction { num: 150, den: 2 });

    let search = snaps.iter().find(|s| s.name == "search").unwrap();
    assert_eq!(search.requests, 1);
    assert_eq!(search.errors, 1);
}

#[test]
fn task_snapshots_shared_across_clones() {
    let m = Arc::new(Mutex::new(Metrics::new()));
    let m2 = Arc::clone(&m);
    m.lock().unwrap().record_success_task("t1", 10);
    let snaps = m2.lock().unwrap().task_snapshots();
    assert_eq!(snaps.len(), 1);
    assert_eq!(snaps[0].name, "t1");
}

#[test]
fn task_snapshots_are_sorted_by_name() {
    let mut m = Metrics::new();
    for name in ["search", "b", "login", "a"] {
        m.record_success_task(name, 1);
    }
    let snaps = m.task_snapshots();
    let names: Vec<&str> = snaps.iter().map(|s| s.name.as_str()).collect();
    assert_eq!(names, vec!["a", "b", "login", "search"]);
}

#[test]
fn every_outcome_is_counted_once() {
    let mut m = Metrics::new();
    m.record_success_task("a", 10);
    m.record_error_task("a", 20);
    m.record_success_task("b", 30);
    assert_eq!(m.requests_total, 3);
    assert_eq!(m.errors_total, 1);
    assert_eq!(m.histogram.count(), 3);
    assert_eq!(m.histogram.buckets[20], 1);
    let snaps = m.task_snapshots();
    assert_eq!(snaps.iter().map(|s| s.requests).sum::<u64>(), 3);
    assert_eq!(snaps.iter().map(|s| s.errors).sum::<u64>(), 1);
}

#[test]
fn task_reports_add_up_to_the_totals() {
    let mut m = Metrics::new();
    m.record_success_task("b", 10);
    m.record_error_task("a", 20);
    m.drain_window();
    m.record_success_task("a", 30);
    m.record_error_task("c", 40);
    let snaps = m.task_snapshots();
    let names: Vec<&str> = snaps.iter().map(|s| s.name.as_str()).collect();
    assert_eq!(names, vec!["a", "b", "c"]);
    let counts: Vec<(u64, u64)> = snaps.iter().map(|s| (s.requests, s.errors)).collect();
    assert_eq!(counts, vec![(2, 1), (1, 0), (1, 1)]);
    assert_eq!(snaps.iter().map(|s| s.requests).sum::<u64>(), m.requests_total);
    assert_eq!(snaps.iter().map(|s| s.errors).sum::<u64>(), m.errors_total);
    assert_eq!(m.window_requests, 2);
}

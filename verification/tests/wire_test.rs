use loadpilot::metrics::BUCKETS;
use loadpilot::number::Fraction;
use loadpilot::scheduler::Phase;
use loadpilot::wire::{
    aggregate, aggregate_tasks, percentile_from_merged, subject_control, subject_metrics,
    subject_register, subject_shard, try_aggregate, update_prometheus, AgentMetricsMsg,
    TaskWireSnapshot, WireLatency,
};

fn value(f: Fraction) -> f64 {
    f.num as f64 / f.den as f64
}

fn share(percent: u128) -> Fraction {
    Fraction { num: percent, den: 100 }
}

/// Milliseconds in picoseconds.
fn ps(ms: f64) -> u64 {
    (ms * 1e9) as u64
}

/// A rate in billionths.
fn nano(rate: u64) -> u64 {
    rate * 1_000_000_000
}

fn make_agent(agent_id: &str, buckets: Vec<[u64; 2]>, requests: u64) -> AgentMetricsMsg {
    AgentMetricsMsg {
        agent_id: agent_id.to_string(),
        elapsed_ns: 1_000_000_000,
        current_nano_rps: nano(requests),
        target_nano_rps: nano(requests),
        requests_total: requests,
        errors_total: 0,
        active_workers: 1,
        phase: "steady".to_string(),
        latency: WireLatency::default(),
        histogram_buckets: buckets,
        task_snapshots: vec![],
    }
}

// ── Percentiles ──────────────────────────────────────────────────────────────

#[test]
fn percentile_empty_returns_zero() {
    let buckets = vec![0u64; BUCKETS];
    assert_eq!(percentile_from_merged(&buckets, 0, share(99)), 0);
}

#[test]
fn percentile_single_bucket() {
    let mut buckets = vec![0u64; BUCKETS];
    buckets[42] = 100;
    assert_eq!(percentile_from_merged(&buckets, 100, share(50)), 42);
    assert_eq!(percentile_from_merged(&buckets, 100, share(99)), 42);
}

#[test]
fn percentile_two_equal_groups() {
    let mut buckets = vec![0u64; BUCKETS];
    buckets[10] = 100;
    buckets[100] = 100;
    assert_eq!(percentile_from_merged(&buckets, 200, share(50)), 10);
    assert_eq!(percentile_from_merged(&buckets, 200, share(99)), 100);
}

#[test]
fn percentile_of_missing_counts_is_the_highest_bucket() {
    let mut buckets = vec![0u64; BUCKETS];
    buckets[3] = 1;
    assert_eq!(percentile_from_merged(&buckets, 10, share(50)), 10_000);
}

// ── Aggregation ──────────────────────────────────────────────────────────────

#[test]
fn aggregate_empty_returns_ramp_up_phase() {
    let agg = aggregate(&[], 0);
    assert_eq!(agg.phase, "ramp_up");
    assert_eq!(agg.requests_total, 0);
}

#[test]
fn aggregate_merges_histograms_exactly() {
    let agents = vec![
        make_agent("agent-0", vec![[10, 100]], 100),
        make_agent("agent-1", vec![[100, 100]], 100),
    ];
    let agg = aggregate(&agents, 0);
    assert_eq!(agg.requests_total, 200);
    assert_eq!(
        value(agg.latency.p50_ms),
        10.0,
        "p50 should be 10ms (first half of requests)"
    );
    assert_eq!(
        value(agg.latency.p99_ms),
        100.0,
        "p99 should be 100ms, not 55ms average"
    );
}

#[test]
fn aggregate_falls_back_to_average_without_histograms() {
    let agents = vec![
        make_agent("agent-0", vec![], 100),
        make_agent("agent-1", vec![], 100),
    ];
    let agg = aggregate(&agents, 0);
    assert_eq!(value(agg.latency.p99_ms), 0.0);
}

#[test]
fn aggregate_sums_rps_and_requests() {
    let agents = vec![
        make_agent("agent-0", vec![[10, 50]], 50),
        make_agent("agent-1", vec![[20, 50]], 50),
    ];
    let agg = aggregate(&agents, 0);
    assert_eq!(agg.requests_total, 100);
    assert_eq!(value(agg.current_rps), 100.0);
}

#[test]
fn aggregate_phase_done_only_when_all_done() {
    let mut a0 = make_agent("agent-0", vec![], 100);
    let mut a1 = make_agent("agent-1", vec![], 100);
    a0.phase = "done".to_string();
    a1.phase = "steady".to_string();
    let agg = aggregate(&[a0, a1], 0);
    assert_ne!(agg.phase, "done");
    assert_eq!(agg.phase, "steady");
}

#[test]
fn aggregate_phase_done_when_all_done() {
    let mut a0 = make_agent("agent-0", vec![], 100);
    let mut a1 = make_agent("agent-1", vec![], 100);
    a0.phase = "done".to_string();
    a1.phase = "done".to_string();
    let agg = aggregate(&[a0, a1], 0);
    assert_eq!(agg.phase, "done");
}

#[test]
fn aggregate_max_ms_is_maximum_across_agents() {
    let mut a0 = make_agent("agent-0", vec![], 100);
    let mut a1 = make_agent("agent-1", vec![], 100);
    a0.latency.max_ps = ps(200.0);
    a1.latency.max_ps = ps(500.0);
    let agg = aggregate(&[a0, a1], 0);
    assert_eq!(value(agg.latency.max_ms), 500.0);
}

#[test]
fn average_without_histograms_is_exact() {
    let mut a0 = make_agent("agent-0", vec![], 1);
    let mut a1 = make_agent("agent-1", vec![], 3);
    a0.latency.p50_ps = ps(10.0);
    a1.latency.p50_ps = ps(20.0);
    a0.latency.mean_ps = ps(10.0);
    a1.latency.mean_ps = ps(50.0);
    a0.latency.min_ps = ps(4.0);
    a1.latency.min_ps = ps(2.5);
    let agg = aggregate(&[a0, a1], 7);
    assert_eq!(agg.timestamp_ns, 7);
    assert_eq!(value(agg.latency.p50_ms), 15.0);
    assert_eq!(value(agg.latency.mean_ms), 40.0);
    assert_eq!(value(agg.latency.min_ms), 2.5);
}

#[test]
fn leading_phase_is_the_farthest_of_those_that_run() {
    let phases = [
        (vec!["ramp_up", "steady", "ramp_up"], "steady"),
        (vec!["ramp_down", "steady"], "ramp_down"),
        (vec!["done", "ramp_up"], "ramp_up"),
        (vec!["ramp_up", "other"], "other"),
    ];
    for (names, expected) in phases {
        let agents: Vec<AgentMetricsMsg> = names
            .iter()
            .map(|n| {
                let mut a = make_agent(n, vec![], 1);
                a.phase = n.to_string();
                a
            })
            .collect();
        assert_eq!(aggregate(&agents, 0).phase, expected);
    }
}

#[test]
fn sums_that_overflow_are_refused() {
    let mut a0 = make_agent("agent-0", vec![], 1);
    a0.current_nano_rps = 0;
    a0.requests_total = u64::MAX;
    let a1 = make_agent("agent-1", vec![], 1);
    assert!(try_aggregate(&[a0, a1], 0).is_none());

    let b0 = make_agent("agent-0", vec![[5, u64::MAX], [5, 1]], 1);
    assert!(try_aggregate(&[b0], 0).is_none());

    let c0 = make_agent_with_tasks("a0", vec![make_task_wire("t", 1, u64::MAX, vec![], 0.0)]);
    let mut c1 = make_agent_with_tasks("a1", vec![make_task_wire("t", 1, 1, vec![], 0.0)]);
    c1.errors_total = 0;
    assert!(try_aggregate(&[c0, c1], 0).is_none());
}

#[test]
fn late_buckets_count_as_the_highest() {
    let agg = aggregate(&[make_agent("a", vec![[50_000, 3]], 3)], 0);
    assert_eq!(value(agg.latency.p50_ms), 10_000.0);
}

#[test]
fn fleet_percentiles_equal_those_of_all_latencies() {
    let agents = vec![
        make_agent("a", vec![[1, 2], [4, 1]], 3),
        make_agent("b", vec![[2, 1], [9, 1]], 2),
    ];
    // All latencies: 1, 1, 2, 4, 9.
    let agg = aggregate(&agents, 0);
    assert_eq!(value(agg.latency.p50_ms), 2.0);
    assert_eq!(value(agg.latency.p95_ms), 9.0);
}

// ── Tasks ────────────────────────────────────────────────────────────────────

fn make_task_wire(
    name: &str,
    requests: u64,
    errors: u64,
    buckets: Vec<[u64; 2]>,
    mean_ms: f64,
) -> TaskWireSnapshot {
    TaskWireSnapshot {
        name: name.to_string(),
        requests,
        errors,
        latency: WireLatency {
            p50_ps: 0,
            p95_ps: 0,
            p99_ps: 0,
            max_ps: 0,
            min_ps: 0,
            mean_ps: ps(mean_ms),
        },
        histogram_buckets: buckets,
    }
}

fn make_agent_with_tasks(agent_id: &str, tasks: Vec<TaskWireSnapshot>) -> AgentMetricsMsg {
    let requests_total: u64 = tasks.iter().map(|t| t.requests).sum();
    AgentMetricsMsg {
        agent_id: agent_id.to_string(),
        elapsed_ns: 1_000_000_000,
        current_nano_rps: nano(requests_total),
        target_nano_rps: nano(requests_total),
        requests_total,
        errors_total: tasks.iter().map(|t| t.errors).sum(),
        active_workers: 1,
        phase: "steady".to_string(),
        latency: WireLatency::default(),
        histogram_buckets: vec![],
        task_snapshots: tasks,
    }
}

#[test]
fn aggregate_tasks_empty_snapshots() {
    let tasks = aggregate_tasks(&[]);
    assert!(tasks.is_empty());
}

#[test]
fn aggregate_tasks_single_agent_single_task() {
    let agent = make_agent_with_tasks(
        "a0",
        vec![make_task_wire("login", 10, 2, vec![[50, 10]], 50.0)],
    );
    let tasks = aggregate_tasks(&[agent]);
    assert_eq!(tasks.len(), 1);
    let t = &tasks[0];
    assert_eq!(t.name, "login");
    assert_eq!(t.requests, 10);
    assert_eq!(t.errors, 2);
    assert_eq!(value(t.latency.mean_ms), 50.0);
}

#[test]
fn aggregate_tasks_merges_same_task_across_agents() {
    let a0 = make_agent_with_tasks(
        "a0",
        vec![make_task_wire("search", 10, 0, vec![[20, 10]], 20.0)],
    );
    let a1 = make_agent_with_tasks(
        "a1",
        vec![make_task_wire("search", 10, 1, vec![[40, 10]], 40.0)],
    );
    let tasks = aggregate_tasks(&[a0, a1]);
    assert_eq!(tasks.len(), 1);
    let t = &tasks[0];
    assert_eq!(t.name, "search");
    assert_eq!(t.requests, 20);
    assert_eq!(t.errors, 1);
    assert_eq!(value(t.latency.mean_ms), 30.0);
}

#[test]
fn aggregate_tasks_merges_histograms_for_exact_percentiles() {
    let a0 = make_agent_with_tasks(
        "a0",
        vec![make_task_wire("api", 100, 0, vec![[10, 100]], 10.0)],
    );
    let a1 = make_agent_with_tasks(
        "a1",
        vec![make_task_wire("api", 100, 0, vec![[200, 100]], 200.0)],
    );
    let tasks = aggregate_tasks(&[a0, a1]);
    assert_eq!(tasks.len(), 1);
    assert_eq!(value(tasks[0].latency.p99_ms), 200.0);
    assert_eq!(value(tasks[0].latency.p50_ms), 10.0);
}

#[test]
fn aggregate_tasks_multiple_tasks_sorted_by_name() {
    let agent = make_agent_with_tasks(
        "a0",
        vec![
            make_task_wire("search", 5, 0, vec![[30, 5]], 30.0),
            make_task_wire("login", 5, 0, vec![[10, 5]], 10.0),
            make_task_wire("checkout", 5, 0, vec![[50, 5]], 50.0),
        ],
    );
    let tasks = aggregate_tasks(&[agent]);
    assert_eq!(tasks.len(), 3);
    assert_eq!(tasks[0].name, "checkout");
    assert_eq!(tasks[1].name, "login");
    assert_eq!(tasks[2].name, "search");
}

#[test]
fn aggregate_tasks_max_min_derived_from_merged_histogram() {
    let a0 = make_agent_with_tasks("a0", vec![make_task_wire("t", 1, 0, vec![[500, 1]], 500.0)]);
    let a1 = make_agent_with_tasks("a1", vec![make_task_wire("t", 1, 0, vec![[10, 1]], 10.0)]);
    let tasks = aggregate_tasks(&[a0, a1]);
    assert_eq!(value(tasks[0].latency.max_ms), 500.0);
    assert_eq!(value(tasks[0].latency.min_ms), 10.0);
}

#[test]
fn aggregate_tasks_empty_task_snapshots_produces_no_tasks() {
    let a0 = make_agent("agent-0", vec![[10, 100]], 100);
    let a1 = make_agent("agent-1", vec![[20, 100]], 100);
    let tasks = aggregate_tasks(&[a0, a1]);
    assert!(tasks.is_empty());
}

#[test]
fn aggregate_includes_tasks_via_aggregate_fn() {
    let agent = make_agent_with_tasks(
        "a0",
        vec![make_task_wire("ping", 10, 0, vec![[5, 10]], 5.0)],
    );
    let agg = aggregate(&[agent], 0);
    assert_eq!(agg.tasks.len(), 1);
    assert_eq!(agg.tasks[0].name, "ping");
    assert_eq!(agg.tasks[0].requests, 10);
}

#[test]
fn task_without_requests_has_no_mean() {
    let agent = make_agent_with_tasks("a0", vec![make_task_wire("t", 0, 0, vec![], 9.0)]);
    let tasks = aggregate_tasks(&[agent]);
    assert_eq!(value(tasks[0].latency.mean_ms), 0.0);
    assert_eq!(value(tasks[0].latency.max_ms), 0.0);
    assert_eq!(value(tasks[0].latency.min_ms), 0.0);
}

// ── Subjects and reports ─────────────────────────────────────────────────────

#[test]
fn subjects_are_as_agreed() {
    assert_eq!(subject_register(), "loadpilot.register");
    assert_eq!(subject_shard("agent-1"), "loadpilot.shard.agent-1");
    assert_eq!(subject_metrics(), "loadpilot.metrics.>");
    assert_eq!(subject_control(), "loadpilot.control");
}

#[test]
fn aggregate_shows_its_phase() {
    for (name, phase) in [
        ("steady", Phase::Steady),
        ("done", Phase::Done),
        ("ramp_up", Phase::RampUp),
        ("ramp_down", Phase::RampDown),
        ("unheard of", Phase::RampUp),
    ] {
        let mut a = make_agent("a", vec![], 4);
        a.phase = name.to_string();
        let s = update_prometheus(aggregate(&[a], 11));
        assert_eq!(s.phase, phase);
        assert_eq!(s.timestamp_ns, 11);
        assert_eq!(s.requests_total, 4);
    }
}

#[test]
fn aggregate_does_not_depend_on_the_order() {
    let build = || {
        let mut a = make_agent("a", vec![[10, 3], [20, 1]], 4);
        a.phase = "ramp_up".to_string();
        a.elapsed_ns = 7;
        a.errors_total = 2;
        a.latency = WireLatency {
            max_ps: ps(30.0),
            min_ps: ps(9.0),
            mean_ps: ps(12.0),
            ..WireLatency::default()
        };
        a.task_snapshots = vec![TaskWireSnapshot {
            name: "t".to_string(),
            requests: 4,
            errors: 1,
            latency: WireLatency::default(),
            histogram_buckets: vec![[10, 4]],
        }];
        let mut b = make_agent("b", vec![[5, 2]], 2);
        b.phase = "ramp_down".to_string();
        b.task_snapshots = vec![
            TaskWireSnapshot {
                name: "t".to_string(),
                requests: 1,
                errors: 0,
                latency: WireLatency::default(),
                histogram_buckets: vec![[99, 1]],
            },
            TaskWireSnapshot {
                name: "s".to_string(),
                requests: 1,
                errors: 1,
                latency: WireLatency::default(),
                histogram_buckets: vec![[1, 1]],
            },
        ];
        let mut c = make_agent("c", vec![], 0);
        c.phase = "done".to_string();
        vec![a, b, c]
    };
    let first = aggregate(&build(), 0);
    for order in [[0, 2, 1], [1, 0, 2], [1, 2, 0], [2, 0, 1], [2, 1, 0]] {
        let mut agents: Vec<Option<AgentMetricsMsg>> = build().into_iter().map(Some).collect();
        let shuffled: Vec<AgentMetricsMsg> =
            order.iter().map(|i| agents[*i].take().unwrap()).collect();
        let other = aggregate(&shuffled, 0);
        assert_eq!(other.requests_total, first.requests_total);
        assert_eq!(other.errors_total, first.errors_total);
        assert_eq!(other.active_workers, first.active_workers);
        assert_eq!(other.elapsed_ns, first.elapsed_ns);
        assert_eq!(other.current_rps, first.current_rps);
        assert_eq!(other.phase, "ramp_down");
        assert_eq!(first.phase, "ramp_down");
        assert_eq!(other.latency, first.latency);
        assert_eq!(other.tasks.len(), 2);
        for (x, y) in other.tasks.iter().zip(&first.tasks) {
            assert_eq!(x.name, y.name);
            assert_eq!((x.requests, x.errors), (y.requests, y.errors));
            assert_eq!(x.latency, y.latency);
        }
    }
    assert_eq!(first.tasks[1].requests, 5);
}

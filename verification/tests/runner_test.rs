use std::time::Duration;

use loadpilot::agent::runner::{
    can_run, compute_target_rps, default_method, default_steps, default_weight, merge_headers,
    phase_str, pick_task, request_for, task_path, total_duration, Counters, Mode, Plan, Runner,
    RunnerStep, TaskPlan, VUserConfig,
};
use loadpilot::budget::RequestBudget;
use loadpilot::map::StringMap;
use loadpilot::number::Fraction;
use loadpilot::plan::HttpMethod;

fn make_plan(rps: u64, duration_secs: u64, ramp_up_secs: u64, mode: Mode) -> Plan {
    Plan {
        name: "test".to_string(),
        rps,
        duration_secs,
        ramp_up_secs,
        mode,
        steps: 5,
        target_url: "http://localhost".to_string(),
        tasks: vec![],
        n_vusers: None,
        vuser_configs: vec![],
    }
}

fn make_task(name: &str, weight: u32, url: &str) -> TaskPlan {
    TaskPlan {
        name: name.to_string(),
        weight,
        url: url.to_string(),
        method: "GET".to_string(),
        headers: StringMap::new(),
        body_template: None,
    }
}

fn target(secs: f64, plan: &Plan) -> f64 {
    let f = compute_target_rps((secs * 1e9) as u64, plan);
    f.num as f64 / f.den as f64
}

fn map_of(pairs: &[(&str, &str)]) -> StringMap<String> {
    let mut m = StringMap::new();
    for (k, v) in pairs {
        m.insert(k.to_string(), v.to_string());
    }
    m
}

// ── Budget ───────────────────────────────────────────────────────────────────

#[test]
fn budget_low_rps_regression() {
    let tick_ms = 50u64;
    let rps = 3.0_f64;

    let old_per_tick = (rps * tick_ms as f64 / 1000.0).round() as u64;
    assert_eq!(old_per_tick, 0, "demonstrates the bug: round(0.15) == 0");

    let mut budget = RequestBudget::new(1, 1000);
    let mut total = 0u64;
    for _ in 0..20 {
        total += budget.accrue(Fraction { num: 3, den: 1 }, tick_ms);
    }
    assert_eq!(
        total, 3,
        "budget must produce exactly 3 requests in 1 second"
    );
}

#[test]
fn budget_matches_target_rps_over_one_second() {
    let tick_ms = 50u64;
    let ticks_per_sec = 1000 / tick_ms;

    for rps in [1u64, 2, 5, 10, 50, 100] {
        let mut budget = RequestBudget::new(1, 1000);
        let mut total = 0u64;
        for _ in 0..ticks_per_sec {
            total += budget.accrue(Fraction { num: rps as u128, den: 1 }, tick_ms);
        }
        let diff = (total as i64 - rps as i64).unsigned_abs();
        assert!(
            diff <= 1,
            "budget must produce ~{rps} requests in 1 second, got {total}"
        );
        assert_eq!(total, rps);
    }
}

#[test]
fn budget_residual_bounded() {
    let tick_ms = 50u64;
    let mut budget = RequestBudget::new(1, 1000);
    for _ in 0..200 {
        budget.accrue(Fraction { num: 7, den: 1 }, tick_ms);
        let residual = budget.rest as f64 / 1000.0;
        assert!(
            residual >= 0.0 && residual < 1.0,
            "budget residual must stay in [0, 1)"
        );
    }
}

#[test]
fn budget_keeps_the_rest_when_the_rate_changes() {
    let mut budget = RequestBudget::new(6, 1000);
    // 1/2 request, then 2/3 of one, then 5/6 of one: two requests in all.
    assert_eq!(budget.accrue(Fraction { num: 1, den: 2 }, 1000), 0);
    assert_eq!(budget.rest, 3000);
    assert_eq!(budget.accrue(Fraction { num: 2, den: 3 }, 1000), 1);
    assert_eq!(budget.rest, 1000);
    assert_eq!(budget.accrue(Fraction { num: 5, den: 6 }, 1000), 1);
    assert_eq!(budget.rest, 0);
}

// ── Load profile ─────────────────────────────────────────────────────────────

#[test]
fn ramp_mode_starts_at_zero_and_reaches_target() {
    let plan = make_plan(100, 60, 30, Mode::Ramp);
    assert_eq!(target(0.0, &plan), 0.0);
    assert!((target(15.0, &plan) - 50.0).abs() < 0.01);
    assert_eq!(target(30.0, &plan), 100.0);
    assert_eq!(target(60.0, &plan), 100.0);
}

#[test]
fn constant_mode_always_returns_target() {
    let plan = make_plan(50, 60, 0, Mode::Constant);
    for t in [0.0, 10.0, 30.0, 59.0] {
        assert_eq!(target(t, &plan), 50.0);
    }
}

#[test]
fn step_mode_increases_in_steps() {
    let plan = make_plan(100, 50, 0, Mode::Step);
    assert!((target(0.0, &plan) - 20.0).abs() < 0.01);
    assert!((target(25.0, &plan) - 60.0).abs() < 0.01);
    assert!((target(45.0, &plan) - 100.0).abs() < 0.01);
}

#[test]
fn spike_mode_baseline_spike_baseline() {
    let plan = make_plan(100, 60, 0, Mode::Spike);
    let baseline = (100.0_f64 * 0.2_f64).max(1.0);
    assert_eq!(target(0.0, &plan), baseline);
    assert_eq!(target(30.0, &plan), 100.0);
    assert_eq!(target(50.0, &plan), baseline);
}

#[test]
fn phases_of_a_run_have_names() {
    let ramp = make_plan(10, 60, 10, Mode::Ramp);
    assert_eq!(phase_str(9_999_999_999, &ramp), "ramp_up");
    assert_eq!(phase_str(10_000_000_000, &ramp), "steady");
    let spike = make_plan(10, 60, 0, Mode::Spike);
    assert_eq!(phase_str(0, &spike), "steady");
    assert_eq!(phase_str(20_000_000_000, &spike), "ramp_up");
    assert_eq!(phase_str(40_000_000_000, &spike), "ramp_down");
    assert_eq!(phase_str(5, &make_plan(10, 60, 10, Mode::Step)), "steady");
}

// ── Choice of tasks ──────────────────────────────────────────────────────────

#[test]
fn pick_task_respects_weights() {
    let tasks = vec![make_task("a", 1, "/a"), make_task("b", 3, "/b")];
    assert_eq!(pick_task(&tasks, 0).name, "a");
    assert_eq!(pick_task(&tasks, 1).name, "b");
    assert_eq!(pick_task(&tasks, 2).name, "b");
    assert_eq!(pick_task(&tasks, 3).name, "b");
    assert_eq!(pick_task(&tasks, 4).name, "a");
}

#[test]
fn pick_task_single_task_always_returns_it() {
    let tasks = vec![make_task("only", 1, "/")];
    for idx in 0..10 {
        assert_eq!(pick_task(&tasks, idx).name, "only");
    }
}

// ── Virtual users ────────────────────────────────────────────────────────────

#[test]
fn task_urls_overrides_task_default_url() {
    let task = make_task("read_project", 1, "/");
    let vc = VUserConfig {
        task_headers: StringMap::new(),
        task_urls: map_of(&[("read_project", "/api/v1/projects/42")]),
    };
    let vuser_configs = vec![vc];
    let pool_size = vuser_configs.len() as u64;

    let slot = (0u64 % pool_size) as usize;
    let path = task_path(&vuser_configs[slot], &task);

    assert_eq!(path, "/api/v1/projects/42");
}

#[test]
fn task_urls_falls_back_to_task_url_when_absent() {
    let task = make_task("list_projects", 1, "/api/v1/projects");
    let vc = VUserConfig {
        task_headers: StringMap::new(),
        task_urls: StringMap::new(),
    };
    let path = task_path(&vc, &task);

    assert_eq!(path, "/api/v1/projects");
}

#[test]
fn empty_vuser_configs_uses_task_url() {
    let task_url = "/api/v1/health";
    let plan = make_plan(1, 1, 0, Mode::Constant);
    let request = request_for(&plan, &make_task("t", 1, task_url), 0);
    assert_eq!(request.url, format!("http://localhost{task_url}"));
}

#[test]
fn vusers_take_turns_and_override_headers() {
    let mut plan = make_plan(1, 1, 0, Mode::Constant);
    for token in ["one", "two"] {
        let mut task_headers = StringMap::new();
        task_headers.insert("t".to_string(), map_of(&[("authorization", token)]));
        plan.vuser_configs.push(VUserConfig {
            task_headers,
            task_urls: StringMap::new(),
        });
    }
    let mut task = make_task("t", 1, "/x");
    task.method = "POST".to_string();
    task.headers = map_of(&[("Authorization", "default"), ("Accept", "json")]);
    task.body_template = Some("{}".to_string());
    let r = request_for(&plan, &task, 3);
    assert_eq!(r.method, HttpMethod::Post);
    assert_eq!(r.url, "http://localhost/x");
    assert_eq!(r.headers.len(), 2);
    assert_eq!(r.headers.get("authorization").unwrap(), "two");
    assert_eq!(r.headers.get("Accept").unwrap(), "json");
    assert!(r.headers.get("Authorization").is_none());
    let q = r.to_http();
    assert_eq!(q.body.as_deref(), Some("{}"));
    assert_eq!(q.headers.len(), 2);
    let other = request_for(&plan, &make_task("unknown", 1, "/y"), 0);
    assert_eq!(other.headers.len(), 0);
    assert_eq!(other.method, HttpMethod::Get);
}

#[test]
fn unknown_methods_are_sent_as_get() {
    let plan = make_plan(1, 1, 0, Mode::Constant);
    for (name, method) in [
        ("PUT", HttpMethod::Put),
        ("PATCH", HttpMethod::Patch),
        ("DELETE", HttpMethod::Delete),
        ("post", HttpMethod::Get),
        ("OPTIONS", HttpMethod::Get),
    ] {
        let mut task = make_task("t", 1, "/");
        task.method = name.to_string();
        assert_eq!(request_for(&plan, &task, 0).method, method);
    }
}

#[test]
fn merged_headers_prefer_the_vuser() {
    let m = merge_headers(
        &map_of(&[("A", "1"), ("B", "2")]),
        &map_of(&[("b", "3"), ("C", "4")]),
    );
    assert_eq!(m.len(), 3);
    assert_eq!(m.get("A").unwrap(), "1");
    assert_eq!(m.get("b").unwrap(), "3");
    assert_eq!(m.get("C").unwrap(), "4");
}

// ── Length of a run ──────────────────────────────────────────────────────────

#[test]
fn ramp_total_duration_includes_ramp_up() {
    let plan = make_plan(10, 120, 20, Mode::Ramp);
    assert_eq!(
        Duration::from_secs(total_duration(&plan)),
        Duration::from_secs(140)
    );
}

#[test]
fn non_ramp_total_duration_ignores_ramp_up() {
    for mode in [Mode::Constant, Mode::Step, Mode::Spike] {
        let plan = make_plan(10, 60, 30, mode);
        assert_eq!(
            Duration::from_secs(total_duration(&plan)),
            Duration::from_secs(60)
        );
    }
}

// ── Counters and ticks ───────────────────────────────────────────────────────

#[test]
fn counters_report_what_they_counted() {
    let mut c = Counters::new();
    c.record(10, false);
    c.record(10, true);
    c.record(20_000, false);
    let m = c.snapshot(
        5,
        Fraction { num: 1, den: 2 },
        Fraction { num: 3, den: 1 },
        "steady",
    );
    assert_eq!(m.agent_id, "");
    assert_eq!(m.requests_total, 3);
    assert_eq!(m.errors_total, 1);
    assert_eq!(m.active_workers, 0);
    assert_eq!(m.phase, "steady");
    assert_eq!(m.histogram_buckets, vec![[10, 2], [10_000, 1]]);
    assert_eq!(m.latency.max_ms, Fraction { num: 20_000, den: 1 });
    assert_eq!(m.latency.mean_ms, Fraction { num: 20_020, den: 3 });
    assert_eq!(c.percentile(Fraction { num: 50, den: 100 }), 10);
}

#[test]
fn runner_fires_at_the_right_rate() {
    let mut plan = make_plan(3, 10, 0, Mode::Constant);
    plan.tasks = vec![make_task("a", 1, "/a"), make_task("b", 2, "/b")];
    let mut runner = Runner::new(plan);
    let mut names = Vec::new();
    for i in 0..40u64 {
        match runner.tick(i * 50_000_000) {
            RunnerStep::Fire { requests, fired } => {
                assert_eq!(requests.len() as u64, fired);
                for r in requests {
                    names.push(r.task);
                }
            }
            RunnerStep::Finished { .. } => panic!("too early"),
        }
    }
    assert_eq!(names, vec!["a", "b", "b", "a", "b", "b"]);
}

#[test]
fn runner_reports_once_a_second_and_ends() {
    let mut plan = make_plan(40, 2, 0, Mode::Constant);
    plan.tasks = vec![make_task("a", 1, "/a")];
    let mut runner = Runner::new(plan);
    runner.tick(0);
    assert!(runner.end_tick(0, 999_999_999).is_none());
    runner.request_done(12, Some(200));
    runner.request_done(13, Some(404));
    runner.request_done(14, None);
    runner.request_done(15, Some(600));
    let report = runner.end_tick(1_000_000_000, 1_000_000_000).unwrap();
    assert_eq!(report.current_rps, Fraction { num: 2_000_000_000, den: 1_000_000_000 });
    assert_eq!(report.target_rps, Fraction { num: 40, den: 1 });
    assert_eq!(report.phase, "steady");
    assert_eq!(report.requests_total, 4);
    assert_eq!(report.errors_total, 3);
    assert!(runner.end_tick(1_000_000_001, 1_000_000_001).is_none());
    match runner.tick(2_000_000_000) {
        RunnerStep::Finished { report } => {
            assert_eq!(report.phase, "done");
            assert_eq!(report.target_rps, Fraction { num: 40, den: 1 });
            assert_eq!(report.current_rps, Fraction { num: 0, den: 1 });
        }
        RunnerStep::Fire { .. } => panic!("should be over"),
    }
}

#[test]
fn runner_without_tasks_sends_nothing() {
    let mut runner = Runner::new(make_plan(100, 10, 0, Mode::Constant));
    match runner.tick(0) {
        RunnerStep::Fire { requests, fired } => {
            assert!(requests.is_empty());
            assert_eq!(fired, 5);
        }
        RunnerStep::Finished { .. } => panic!("too early"),
    }
}

#[test]
fn plans_that_cannot_run_are_found_out() {
    let mut plan = make_plan(1, u64::MAX, 1, Mode::Ramp);
    assert!(!can_run(&plan));
    plan.mode = Mode::Constant;
    assert!(can_run(&plan));
    plan.tasks = vec![make_task("a", 0, "/")];
    assert!(!can_run(&plan));
    plan.tasks = vec![make_task("a", u32::MAX, "/"), make_task("b", 1, "/")];
    assert!(!can_run(&plan));
    plan.tasks = vec![make_task("a", u32::MAX, "/")];
    assert!(can_run(&plan));
}

#[test]
fn agent_defaults_are_as_documented() {
    assert_eq!(default_weight(), 1);
    assert_eq!(default_method(), "GET");
    assert_eq!(default_steps(), 5);
    assert_eq!(Mode::default(), Mode::Ramp);
}

#[test]
fn virtual_users_take_turns() {
    let mut plan = make_plan(20, 10, 0, Mode::Constant);
    plan.tasks = vec![make_task("a", 1, "/a")];
    for i in 0..3 {
        plan.vuser_configs.push(VUserConfig {
            task_headers: StringMap::new(),
            task_urls: map_of(&[("a", format!("/{i}").as_str())]),
        });
    }
    let mut runner = Runner::new(plan);
    let mut urls = Vec::new();
    for i in 0..6u64 {
        match runner.tick(i * 50_000_000) {
            RunnerStep::Fire { requests, .. } => {
                for r in requests {
                    urls.push(r.url);
                }
            }
            RunnerStep::Finished { .. } => panic!("too early"),
        }
    }
    let expected: Vec<String> = [0, 1, 2, 0, 1, 2]
        .iter()
        .map(|i| format!("http://localhost/{i}"))
        .collect();
    assert_eq!(urls, expected);
}

#[test]
fn low_rates_are_met_over_whole_seconds() {
    for rps in [1u64, 3, 7, 19, 21] {
        let mut plan = make_plan(rps, 100, 0, Mode::Constant);
        plan.tasks = vec![make_task("a", 1, "/a")];
        let mut runner = Runner::new(plan);
        let mut total = 0;
        for i in 0..60u64 {
            if let RunnerStep::Fire { fired, .. } = runner.tick(i * 50_000_000) {
                total += fired;
            }
        }
        assert_eq!(total, 3 * rps);
        assert_eq!(runner.budget.rest, 0);
    }
}

#[test]
fn counters_hold_together_in_any_order() {
    let calls = [(3u64, false), (20_000, true), (3, true), (7, false), (10_000, false)];
    let count = |order: &[usize]| {
        let mut c = Counters::new();
        for i in order {
            c.record(calls[*i].0, calls[*i].1);
        }
        c
    };
    let a = count(&[0, 1, 2, 3, 4]);
    let b = count(&[4, 2, 0, 3, 1]);
    assert_eq!(a.histogram.buckets, b.histogram.buckets);
    assert_eq!(a.histogram.buckets.len(), 10_001);
    assert_eq!(a.histogram.buckets.iter().sum::<u64>(), 5);
    assert_eq!(a.histogram.buckets[10_000], 2);
    for c in [&a, &b] {
        assert_eq!(c.histogram.count, 5);
        assert_eq!(c.errors_total, 2);
        assert_eq!(c.histogram.sum_ms, 30_013);
        assert_eq!((c.histogram.min_ms, c.histogram.max_ms), (3, 20_000));
        assert!(c.histogram.min_ms * c.histogram.count <= c.histogram.sum_ms);
        assert!(c.histogram.sum_ms <= c.histogram.max_ms * c.histogram.count);
    }
    let zero = Fraction { num: 0, den: 1 };
    assert_eq!(a.snapshot(0, zero, zero, "steady").errors_total, 2);
}

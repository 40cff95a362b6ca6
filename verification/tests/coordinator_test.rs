use loadpilot::coordinator::{
    end_schedule, max_concurrency, max_idle, plan_fits, stagger_ms, start_schedule, Coordinator,
    EndStep, Job, Run, RunError, StartStep, TickAction,
};
use loadpilot::map::StringMap;
use loadpilot::number::Fraction;
use loadpilot::plan::{HttpMethod, Mode, ScenarioPlan, TaskPlan};
use loadpilot::scheduler::Phase;
use loadpilot::vuser::CallResult;

fn make_task(name: &str, weight: u32, url: &str) -> TaskPlan {
    TaskPlan {
        name: name.to_string(),
        weight,
        url: url.to_string(),
        method: HttpMethod::Post,
        headers: StringMap::new(),
        body_template: Some("{}".to_string()),
    }
}

fn make_plan(rps: u64, duration: u64, ramp_up: u64, mode: Mode) -> ScenarioPlan {
    ScenarioPlan {
        name: "T".to_string(),
        rps,
        duration_secs: duration,
        ramp_up_secs: ramp_up,
        mode,
        target_url: "http://localhost//".to_string(),
        tasks: vec![make_task("a", 1, "/a"), make_task("b", 3, "/b")],
        scenario_file: None,
        scenario_class: None,
        n_vusers: None,
        vuser_configs: vec![],
        steps: 5,
    }
}

fn static_run(plan: ScenarioPlan) -> Run {
    let mut run = Coordinator::new(plan).start().unwrap();
    run.attach(None);
    run
}

fn jobs(action: TickAction) -> Vec<Job> {
    match action {
        TickAction::Fire { jobs } => jobs,
        other => panic!("unexpected {other:?}"),
    }
}

const MS: u64 = 1_000_000;

#[test]
fn plan_without_tasks_cannot_start() {
    let mut plan = make_plan(10, 1, 0, Mode::Constant);
    plan.tasks.clear();
    let err = Coordinator::new(plan).start().unwrap_err();
    assert_eq!(err, RunError::NoTasks);
    assert_eq!(err.message(), "plan contains no tasks");
}

#[test]
fn concurrency_is_bounded() {
    assert_eq!(max_concurrency(0), 50);
    assert_eq!(max_concurrency(254), 50);
    assert_eq!(max_concurrency(255), 51);
    assert_eq!(max_concurrency(10_000), 2000);
    assert_eq!(max_concurrency(u64::MAX), 2000);
    assert_eq!(max_idle(51), 51);
    assert_eq!(max_idle(2000), 512);
}

#[test]
fn bridge_needs_file_and_class() {
    let mut plan = make_plan(10, 1, 0, Mode::Constant);
    plan.scenario_file = Some("/a/b.py".to_string());
    let run = Coordinator::new(plan).start().unwrap();
    assert!(run.bridge_request().is_none());

    let mut plan = make_plan(10, 1, 0, Mode::Constant);
    plan.scenario_file = Some("/a/b.py".to_string());
    plan.scenario_class = Some("MyFlow".to_string());
    let run = Coordinator::new(plan).start().unwrap();
    let b = run.bridge_request().unwrap();
    assert_eq!(b.scenario_file, "/a/b.py");
    assert_eq!(b.scenario_class, "MyFlow");
    assert_eq!(b.n_vusers, 5);

    let mut plan = make_plan(10, 1, 0, Mode::Constant);
    plan.scenario_file = Some("/a/b.py".to_string());
    plan.scenario_class = Some("MyFlow".to_string());
    plan.n_vusers = Some(2);
    let run = Coordinator::new(plan).start().unwrap();
    assert_eq!(run.bridge_request().unwrap().n_vusers, 2);
}

#[test]
fn start_is_spread_over_the_ramp() {
    assert_eq!(stagger_ms(5, 10), 2500);
    assert_eq!(stagger_ms(1, 10), 0);
    assert_eq!(stagger_ms(5, 0), 0);
    assert_eq!(stagger_ms(4, 10), 3333);
    assert_eq!(
        start_schedule(3, 7),
        vec![
            StartStep::Call(0),
            StartStep::Sleep(7),
            StartStep::Call(1),
            StartStep::Sleep(7),
            StartStep::Call(2),
        ]
    );
    assert_eq!(start_schedule(2, 0), vec![StartStep::Call(0), StartStep::Call(1)]);
    assert!(start_schedule(0, 7).is_empty());
}

#[test]
fn end_stops_every_vuser() {
    assert_eq!(
        end_schedule(Some(2)),
        vec![
            EndStep::MarkDone,
            EndStep::Sleep(1200),
            EndStep::CallOnStop(0),
            EndStep::CallOnStop(1),
            EndStep::Shutdown,
            EndStep::FinalReport,
            EndStep::AwaitReporter,
        ]
    );
    assert_eq!(
        end_schedule(None),
        vec![
            EndStep::MarkDone,
            EndStep::Sleep(1200),
            EndStep::FinalReport,
            EndStep::AwaitReporter,
        ]
    );
}

#[test]
fn static_jobs_come_from_the_plan() {
    let mut run = static_run(make_plan(20, 10, 0, Mode::Constant));
    let mut fired = jobs(run.tick(50 * MS));
    assert_eq!(fired.len(), 1);
    match fired.remove(0) {
        Job::Static { task, method, url, body, .. } => {
            assert_eq!(task, "a");
            assert_eq!(method, HttpMethod::Post);
            assert_eq!(url, "http://localhost/a");
            assert_eq!(body.as_deref(), Some("{}"));
        }
        other => panic!("unexpected {other:?}"),
    }
}

#[test]
fn static_request_states_its_body_as_json() {
    let mut run = static_run(make_plan(20, 10, 0, Mode::Constant));
    let job = jobs(run.tick(50 * MS)).remove(0);
    let q = job.to_http().unwrap();
    assert_eq!(
        q.headers,
        vec![("Content-Type".to_string(), "application/json".to_string())]
    );
    let bridge = Job::Bridge { vuser: 0, task: "a".to_string() };
    assert!(bridge.to_http().is_none());
}

#[test]
fn tasks_take_turns_across_ticks() {
    let mut run = static_run(make_plan(20, 10, 0, Mode::Constant));
    let mut names = Vec::new();
    for i in 1..=8 {
        for job in jobs(run.tick(i * 50 * MS)) {
            match job {
                Job::Static { task, .. } => names.push(task),
                Job::Bridge { .. } => panic!("no virtual users here"),
            }
        }
    }
    assert_eq!(names, vec!["a", "b", "b", "b", "a", "b", "b", "b"]);
}

#[test]
fn ramp_hands_out_what_accrues() {
    // 100 requests a second after 10 s: over the ramp 500 are due, less what
    // the ticks round down.
    let mut run = static_run(make_plan(100, 60, 10, Mode::Ramp));
    let mut n = 0;
    for i in 1..=200u64 {
        n += jobs(run.tick(i * 50 * MS)).len();
    }
    // The sum of i / 200 * 100 * 0.05 over the ticks, rounded down.
    assert_eq!(n, 502);
    for i in 201..=220u64 {
        n += jobs(run.tick(i * 50 * MS)).len();
    }
    assert_eq!(n, 602);
}

#[test]
fn vusers_wait_until_they_are_ready() {
    let mut run = Coordinator::new(make_plan(40, 10, 0, Mode::Constant)).start().unwrap();
    run.attach(Some(2));
    assert!(matches!(run.tick(50 * MS), TickAction::Wait));
    run.vuser_ready();
    run.vuser_ready();
    let mut users = Vec::new();
    for i in 2..=3 {
        for job in jobs(run.tick(i * 50 * MS)) {
            match job {
                Job::Bridge { vuser, .. } => users.push(vuser),
                Job::Static { .. } => panic!("not static"),
            }
        }
    }
    assert_eq!(users, vec![0, 1, 0, 1]);
}

#[test]
fn run_ends_with_its_time() {
    let mut run = static_run(make_plan(10, 2, 3, Mode::Ramp));
    assert!(!matches!(run.tick(4_999_999_999), TickAction::Stop));
    assert!(matches!(run.tick(5_000_000_000), TickAction::Stop));
}

#[test]
fn outcomes_are_counted() {
    let mut run = static_run(make_plan(10, 2, 0, Mode::Constant));
    for _ in 0..5 {
        run.request_started();
    }
    assert_eq!(run.active_workers, 5);
    run.static_done("a", 10, Some(399));
    run.static_done("a", 20, Some(400));
    run.static_done("a", 30, None);
    run.bridge_done("b", Some(vec![]));
    run.bridge_done("b", None);
    assert_eq!(run.active_workers, 0);
    assert_eq!(run.metrics.requests_total, 5);
    assert_eq!(run.metrics.errors_total, 4);
    run.request_started();
    run.bridge_done(
        "b",
        Some(vec![
            CallResult { elapsed_ms: 1, status_code: 200, success: true, error: None },
            CallResult { elapsed_ms: 2, status_code: 500, success: false, error: None },
        ]),
    );
    assert_eq!(run.metrics.requests_total, 7);
    assert_eq!(run.metrics.errors_total, 5);
}

#[test]
fn reports_follow_the_run() {
    let mut run = static_run(make_plan(10, 2, 2, Mode::Ramp));
    run.request_started();
    run.static_done("a", 10, Some(200));
    run.request_started();
    let s = run.report(1_000_000_000, 77);
    assert_eq!(s.timestamp_ns, 77);
    assert_eq!(s.elapsed_ns, 1_000_000_000);
    assert_eq!(s.phase, Phase::RampUp);
    assert_eq!(s.current_rps, Fraction { num: 1, den: 1 });
    assert_eq!(s.target_rps, Fraction { num: 10_000_000_000, den: 2_000_000_000 });
    assert_eq!(s.requests_total, 1);
    assert_eq!(s.active_workers, 1);
    assert_eq!(s.tasks.len(), 1);
    let s = run.report(4_000_000_000, 78);
    assert_eq!(s.current_rps, Fraction { num: 0, den: 1 });
    assert_eq!(s.phase, Phase::Done);
    assert_eq!(s.target_rps, Fraction { num: 0, den: 1 });
    run.mark_done();
    assert!(run.done);
    let s = run.final_report(5_000_000_000, 79);
    assert_eq!(s.phase, Phase::Done);
    assert_eq!(s.active_workers, 0);
    assert_eq!(s.requests_total, 1);
    assert_eq!(s.latency.p50_ms, Fraction { num: 10, den: 1 });
}

#[test]
fn plans_and_ticks_out_of_range_are_found_out() {
    let mut plan = make_plan(1, u64::MAX, 1, Mode::Ramp);
    assert!(!plan_fits(&plan));
    plan.mode = Mode::Constant;
    assert!(plan_fits(&plan));
    plan.tasks[0].weight = u32::MAX;
    assert!(!plan_fits(&plan));

    let mut run = static_run(make_plan(u64::MAX, 10, 0, Mode::Constant));
    run.begin(5);
    assert!(!run.tick_fits(4));
    assert!(run.tick_fits(1_000_000_004));
    assert!(!run.tick_fits(1_000_000_005));
}

#[test]
fn constant_load_is_met_whatever_the_ticks() {
    let mut run = static_run(make_plan(7, 10, 0, Mode::Constant));
    let mut fired: u64 = 0;
    let mut now: u64 = 0;
    for step in [1u64, 50 * MS, 3 * MS, 49_999_999, 211 * MS, 0, 999_999_937, 77 * MS] {
        now += step;
        fired += jobs(run.tick(now)).len() as u64;
        assert_eq!(fired, 7 * now / 1_000_000_000);
    }
    assert!(run.budget.rest < 1_000_000_000);
}

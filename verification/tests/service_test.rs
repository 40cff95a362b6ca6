use loadpilot::bench_target::{health_body, login_body, user_body};
use loadpilot::cli::{choose_mode, plan_error, plan_text, Options, RunMode};
use loadpilot::coordinator::Coordinator;
use loadpilot::map::StringMap;
use loadpilot::plan::{HttpMethod, Mode, ScenarioPlan, TaskPlan};
use loadpilot::prometheus::{no_data, render, unavailable, GaugeTexts};
use loadpilot::serve::{stream_line, Slot};

fn options() -> Options {
    Options {
        local_agents: 0,
        external_agents: 0,
        nats_url: None,
        serve: false,
        serve_agents: 1,
    }
}

#[test]
fn one_test_runs_at_a_time() {
    let mut slot = Slot::new();
    assert!(slot.enter().is_none());
    let refused = slot.enter().unwrap();
    assert_eq!(refused.status, 409);
    assert_eq!(refused.body, "a test is already running\n");
    slot.finish();
    assert!(slot.enter().is_none());
    let invalid = slot.refuse_plan("expected value");
    assert_eq!(invalid.status, 400);
    assert_eq!(invalid.body, "invalid plan: expected value\n");
    assert!(slot.enter().is_none());
}

#[test]
fn metrics_are_streamed_as_lines() {
    assert_eq!(stream_line("{}"), "{}\n");
}

#[test]
fn command_line_chooses_the_mode() {
    assert!(matches!(choose_mode(options()), Ok(RunMode::Single)));
    match choose_mode(Options { serve: true, serve_agents: 3, ..options() }).unwrap() {
        RunMode::Serve { nats_url, agents } => {
            assert_eq!(nats_url, "nats://localhost:4222");
            assert_eq!(agents, 3);
        }
        other => panic!("unexpected {other:?}"),
    }
    let url = Some("tls://h:1".to_string());
    match choose_mode(Options { nats_url: url.clone(), external_agents: 2, local_agents: 9, ..options() }).unwrap() {
        RunMode::ExternalNats { nats_url, agents } => {
            assert_eq!(nats_url, "tls://h:1");
            assert_eq!(agents, 2);
        }
        other => panic!("unexpected {other:?}"),
    }
    assert_eq!(
        choose_mode(Options { nats_url: url, local_agents: 9, ..options() }).unwrap_err(),
        "--nats-url requires --external-agents N (how many remote agents to wait for)"
    );
    assert!(matches!(
        choose_mode(Options { local_agents: 4, external_agents: 2, ..options() }),
        Ok(RunMode::LocalAgents { agents: 4 })
    ));
    assert!(matches!(
        choose_mode(Options { external_agents: 2, ..options() }),
        Ok(RunMode::ExternalAgents { agents: 2 })
    ));
}

#[test]
fn unreadable_plan_is_quoted() {
    assert_eq!(plan_text("  {} \n"), "{}");
    assert_eq!(
        plan_error("bad", "short"),
        "Failed to parse plan JSON: bad\nInput: short"
    );
    let long = "é".repeat(300);
    let message = plan_error("bad", &long);
    assert_eq!(
        message,
        format!("Failed to parse plan JSON: bad\nInput: {}", "é".repeat(200))
    );
}

#[test]
fn prometheus_page_lists_the_metrics() {
    let plan = ScenarioPlan {
        name: "T".to_string(),
        rps: 10,
        duration_secs: 1,
        ramp_up_secs: 0,
        mode: Mode::Constant,
        target_url: "http://localhost".to_string(),
        tasks: vec![TaskPlan {
            name: "t".to_string(),
            weight: 1,
            url: "/".to_string(),
            method: HttpMethod::Get,
            headers: StringMap::new(),
            body_template: None,
        }],
        scenario_file: None,
        scenario_class: None,
        n_vusers: None,
        vuser_configs: vec![],
        steps: 5,
    };
    let mut run = Coordinator::new(plan).start().unwrap();
    run.attach(None);
    run.request_started();
    run.static_done("t", 7, Some(500));
    let s = run.report(5, 6);
    let t = GaugeTexts {
        current_rps: "1".to_string(),
        target_rps: "10".to_string(),
        p50: "7".to_string(),
        p95: "7.5".to_string(),
        p99: "8".to_string(),
        max: "9".to_string(),
        mean: "7.25".to_string(),
        elapsed: "0.5".to_string(),
    };
    let page = render(&s, &t);
    assert!(page.starts_with(
        "# HELP loadpilot_requests_total Total number of HTTP requests made.\n# TYPE loadpilot_requests_total counter\nloadpilot_requests_total 1\n# HELP loadpilot_errors_total"
    ));
    assert!(page.contains("\nloadpilot_errors_total 1\n"));
    assert!(page.contains("\nloadpilot_latency_p95_ms 7.5\n"));
    assert!(page.contains("\nloadpilot_active_workers 0\n"));
    assert!(page.contains("\nloadpilot_elapsed_secs 0.5\n"));
    assert!(page.ends_with("loadpilot_phase{phase=\"steady\"} 1\n"));
    assert_eq!(page.lines().count(), 36);
    assert_eq!(no_data(), "# loadpilot: no data yet\n");
    assert_eq!(unavailable(), "# loadpilot metrics unavailable\n");
}

#[test]
fn bench_target_asks_for_its_token() {
    assert_eq!(health_body(), "{\"status\":\"ok\"}");
    assert_eq!(login_body(), "{\"access_token\":\"bench-token\"}");
    assert_eq!(user_body(Some("Bearer bench-token")), Some("{\"id\":1,\"name\":\"bench\"}"));
    assert_eq!(user_body(Some("Bearer other")), None);
    assert_eq!(user_body(None), None);
}

use loadpilot::agent::python_bridge::{PythonTask, PythonTaskResult};
use loadpilot::agent::runner::Counters;
use loadpilot::agent::terminal::{render_one_line, round_half_even};
use loadpilot::agent::worker::{prepare_request, WorkerConfig};
use loadpilot::agent::{
    metrics_subject, reconnect_secs, Action, Agent, Event, Incoming, Session, Stage,
};
use loadpilot::map::StringMap;
use loadpilot::number::Fraction;
use loadpilot::plan::{default_method, default_steps, default_weight, HttpMethod};

fn whole(n: u128) -> Fraction {
    Fraction { num: n, den: 1 }
}

#[test]
fn agent_knows_its_coordinator() {
    let a = Agent::new("a-1".to_string(), "10.0.0.1:4222".to_string());
    assert_eq!(a.id, "a-1");
    assert_eq!(a.coordinator_addr, "10.0.0.1:4222");
    assert_eq!(
        a.connecting(),
        "[a-1] Connecting to coordinator at 10.0.0.1:4222 (v2 stub)"
    );
    assert_eq!(metrics_subject("a-1"), "loadpilot.metrics.a-1");
}

#[test]
fn session_runs_from_shard_to_done() {
    let mut s = Session::new("a".to_string());
    assert_eq!(s.classify("loadpilot.shard.a"), Incoming::Shard);
    assert_eq!(s.classify("loadpilot.shard.b"), Incoming::Other);
    assert_eq!(s.classify("loadpilot.control"), Incoming::Control);
    assert_eq!(s.on_event(Event::Reannounce), Action::Announce);
    assert_eq!(
        s.on_event(Event::Shard { start_at_unix_ms: 5000, now_ms: 4200 }),
        Action::Run { wait_ms: 800 }
    );
    assert_eq!(s.stage, Stage::Running);
    assert_eq!(s.classify("loadpilot.shard.a"), Incoming::Other);
    assert_eq!(s.on_event(Event::Reannounce), Action::Nothing);
    assert_eq!(s.on_event(Event::Report { phase: "steady".to_string() }), Action::Send);
    assert_eq!(
        s.on_event(Event::Control { command: Some("go".to_string()) }),
        Action::Nothing
    );
    assert_eq!(s.on_event(Event::Control { command: None }), Action::Nothing);
    assert_eq!(
        s.on_event(Event::Report { phase: "done".to_string() }),
        Action::SendAndEnd
    );
    assert_eq!(s.stage, Stage::Ended);
    assert_eq!(s.on_event(Event::Reannounce), Action::Nothing);
}

#[test]
fn stop_ends_a_session() {
    let stop = || Event::Control { command: Some("stop".to_string()) };
    let mut s = Session::new("a".to_string());
    assert_eq!(s.on_event(stop()), Action::End);
    assert_eq!(s.stage, Stage::Ended);
    let mut s = Session::new("a".to_string());
    s.on_event(Event::Shard { start_at_unix_ms: 0, now_ms: 1 });
    assert_eq!(s.on_event(stop()), Action::End);
}

#[test]
fn agents_wait_for_the_common_start() {
    for now in [1000u64, 1500, 2999, 3000] {
        let mut s = Session::new("a".to_string());
        match s.on_event(Event::Shard { start_at_unix_ms: 3000, now_ms: now }) {
            Action::Run { wait_ms } => assert_eq!(now + wait_ms, 3000),
            other => panic!("unexpected {other:?}"),
        }
    }
    for (start, now) in [(0, 5), (4, 5)] {
        let mut s = Session::new("a".to_string());
        assert_eq!(
            s.on_event(Event::Shard { start_at_unix_ms: start, now_ms: now }),
            Action::Run { wait_ms: 0 }
        );
    }
}

#[test]
fn agents_reconnect_after_a_pause() {
    assert_eq!(reconnect_secs(false), 2);
    assert_eq!(reconnect_secs(true), 5);
}

#[test]
fn python_is_not_available_on_agents() {
    let t = PythonTask { name: "t".to_string() };
    assert_eq!(t.name, "t");
    assert_eq!(t.invoke().unwrap_err(), "Python bridge not available in MVP");
    let r = PythonTaskResult {
        method: "GET".to_string(),
        url: "/".to_string(),
        headers: StringMap::new(),
        body: None,
    };
    assert_eq!(r.url, "/");
}

#[test]
fn worker_pool_has_a_least_size() {
    let mut c = WorkerConfig {
        target_rps: whole(10),
        ramp_up_ns: 0,
        duration_ns: 0,
        concurrency: 1,
        base_url: String::new(),
    };
    assert_eq!(c.max_concurrency(), 100);
    c.target_rps = Fraction { num: 301, den: 2 };
    assert_eq!(c.max_concurrency(), 600);
    c.target_rps = whole(25);
    assert_eq!(c.max_concurrency(), 100);
    c.target_rps = whole(26);
    assert_eq!(c.max_concurrency(), 104);
}

#[test]
fn workers_know_five_methods() {
    let headers = StringMap::new();
    for (name, method) in [
        ("get", HttpMethod::Get),
        ("Post", HttpMethod::Post),
        ("PUT", HttpMethod::Put),
        ("patch", HttpMethod::Patch),
        ("delete", HttpMethod::Delete),
    ] {
        let q = prepare_request(name, "http://h/", &headers, None).unwrap();
        assert_eq!(q.method, method);
        assert_eq!(q.url, "http://h/");
        assert!(q.headers.is_empty());
    }
    let q = prepare_request("POST", "u", &headers, Some("{}".to_string())).unwrap();
    assert_eq!(q.headers[0].1, "application/json");
    assert_eq!(
        prepare_request("options", "u", &headers, None).unwrap_err(),
        "Unknown HTTP method: OPTIONS"
    );
    assert_eq!(
        HttpMethod::parse("straße").unwrap_err(),
        "Unknown HTTP method: STRASSE"
    );
    assert_eq!(HttpMethod::Delete.as_str(), "DELETE");
    assert_eq!(HttpMethod::from_name("PATCH"), Some(HttpMethod::Patch));
    assert_eq!(HttpMethod::from_name("patch"), None);
}

#[test]
fn plan_defaults_are_as_documented() {
    assert_eq!(default_weight(), 1);
    assert_eq!(default_method(), "GET");
    assert_eq!(default_steps(), 5);
}

#[test]
fn progress_fits_in_one_line() {
    let line = render_one_line(
        "Checkout",
        102_000_000_000,
        120_000_000_000,
        Fraction { num: 199, den: 2 },
        whole(100),
        9812,
        5,
        whole(12),
        Fraction { num: 83, den: 2 },
    );
    assert_eq!(
        line,
        "LoadPilot — Checkout  [01:42/02:00]  rps: 100/100  total: 9812  err: 0.1%  p50: 12ms  p99: 42ms  [█████████████████░░░] 85%"
    );
}

#[test]
fn progress_ends_at_a_hundred() {
    let line = render_one_line("T", 200_000_000_000, 60_000_000_000, whole(0), whole(0), 0, 0, whole(0), whole(0));
    assert_eq!(
        line,
        "LoadPilot — T  [03:20/01:00]  rps: 0/0  total: 0  err: 0.0%  p50: 0ms  p99: 0ms  [████████████████████] 100%"
    );
    let line = render_one_line("T", 1, 0, whole(1), whole(1), 2, 1, whole(1), whole(1));
    assert!(line.ends_with("[░░░░░░░░░░░░░░░░░░░░] 0%"));
    assert!(line.contains("err: 50.0%"));
}

#[test]
fn rounding_goes_to_the_even_number() {
    for (num, expected) in [(1u128, 0.5f64), (3, 1.5), (5, 2.5), (7, 3.5), (4, 2.0)] {
        assert_eq!(format!("{}", round_half_even(num, 2)), format!("{expected:.0}"));
    }
    assert_eq!(round_half_even(2, 3), 1);
    assert_eq!(round_half_even(1, 3), 0);
    assert_eq!(round_half_even(u128::MAX, 1), u128::MAX);
    assert_eq!(round_half_even(u128::MAX, u128::MAX), 1);
    assert_eq!(round_half_even(u128::MAX, 2), u128::MAX / 2 + 1);
    assert_eq!(round_half_even(u128::MAX / 2, u128::MAX), 0);
}

#[test]
fn reports_carry_the_name_of_their_agent() {
    let report = Counters::new().snapshot(7, whole(1), whole(2), "steady");
    assert_eq!(report.agent_id, "");
    let s = Session::new("a-1".to_string());
    let signed = s.sign(report);
    assert_eq!(signed.agent_id, "a-1");
    assert_eq!(signed.elapsed_ns, 7);
    assert_eq!(signed.phase, "steady");
}

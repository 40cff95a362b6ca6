use loadpilot::distributed::{
    agent_candidates, agent_file_name, agent_missing, is_metrics_subject, is_register_subject,
    local_agent_id, on_shutdown_signal, part_of, registration_timeout_secs, shard, shard_messages,
    start_time, stop_command, Fleet, FleetEnd, Registration,
};
use loadpilot::map::StringMap;
use loadpilot::plan::{HttpMethod, Mode, ScenarioPlan, TaskPlan, VUserConfig};
use loadpilot::scheduler::compute_phase_and_rps;
use loadpilot::wire::{AgentMetricsMsg, WireLatency};

fn make_plan(rps: u64, n_vusers: Option<u64>) -> ScenarioPlan {
    let mut headers = StringMap::new();
    headers.insert("A".to_string(), "1".to_string());
    let mut inner = StringMap::new();
    inner.insert("B".to_string(), "2".to_string());
    let mut task_headers = StringMap::new();
    task_headers.insert("t".to_string(), inner);
    let mut task_urls = StringMap::new();
    task_urls.insert("t".to_string(), "/t/7".to_string());
    ScenarioPlan {
        name: "S".to_string(),
        rps,
        duration_secs: 60,
        ramp_up_secs: 10,
        mode: Mode::Spike,
        target_url: "http://localhost".to_string(),
        tasks: vec![TaskPlan {
            name: "t".to_string(),
            weight: 2,
            url: "/t".to_string(),
            method: HttpMethod::Delete,
            headers,
            body_template: Some("x".to_string()),
        }],
        scenario_file: Some("/a/b.py".to_string()),
        scenario_class: None,
        n_vusers,
        vuser_configs: vec![VUserConfig { task_headers, task_urls }],
        steps: 7,
    }
}

fn report(agent_id: &str, phase: &str, requests: u64) -> AgentMetricsMsg {
    AgentMetricsMsg {
        agent_id: agent_id.to_string(),
        elapsed_ns: 0,
        current_nano_rps: 0,
        target_nano_rps: 0,
        requests_total: requests,
        errors_total: 0,
        active_workers: 0,
        phase: phase.to_string(),
        latency: WireLatency::default(),
        histogram_buckets: vec![],
        task_snapshots: vec![],
    }
}

const SEC: u64 = 1_000_000_000;

#[test]
fn shards_split_the_load() {
    let plan = make_plan(10, Some(2));
    let rates: Vec<u64> = (0..3).map(|i| shard(&plan, 3, i).rps).collect();
    assert_eq!(rates, vec![3, 3, 4]);
    assert_eq!(rates.iter().sum::<u64>(), 10);
    let users: Vec<u64> = (0..3).map(|i| shard(&plan, 3, i).n_vusers.unwrap()).collect();
    assert_eq!(users, vec![1, 1, 2]);
    assert!(shard(&make_plan(10, None), 3, 0).n_vusers.is_none());
}

#[test]
fn shards_keep_the_rest_of_the_plan() {
    let s = shard(&make_plan(10, None), 1, 0);
    assert_eq!(s.rps, 10);
    assert_eq!(s.name, "S");
    assert_eq!(s.mode, Mode::Spike);
    assert_eq!(s.steps, 7);
    assert_eq!(s.tasks.len(), 1);
    assert_eq!(s.tasks[0].method, HttpMethod::Delete);
    assert_eq!(s.tasks[0].headers.get("A").unwrap(), "1");
    assert_eq!(s.tasks[0].body_template.as_deref(), Some("x"));
    assert_eq!(s.scenario_file.as_deref(), Some("/a/b.py"));
    let inner = s.vuser_configs[0].task_headers.get("t").unwrap();
    assert_eq!(inner.get("B").unwrap(), "2");
    assert_eq!(s.vuser_configs[0].task_urls.get("t").unwrap(), "/t/7");
}

#[test]
fn parts_add_up_for_any_number_of_agents() {
    for amount in [0u64, 1, 7, 100, u64::MAX] {
        for n in 1..9usize {
            let sum: u64 = (0..n).map(|i| part_of(amount, n, i)).sum();
            assert_eq!(sum, amount);
        }
    }
}

#[test]
fn messages_carry_shards_and_a_common_start() {
    let plan = make_plan(10, None);
    let agents = vec!["x".to_string(), "y".to_string()];
    let msgs = shard_messages(&plan, 2, &agents, start_time(1000));
    assert_eq!(msgs.len(), 2);
    assert_eq!(msgs[0].agent_id, "x");
    assert_eq!(msgs[1].agent_id, "y");
    assert_eq!(msgs[0].plan.rps + msgs[1].plan.rps, 10);
    assert_eq!(msgs[0].start_at_unix_ms, 3000);
    assert_eq!(msgs[1].start_at_unix_ms, 3000);
}

#[test]
fn registration_counts_agents() {
    let mut r = Registration::new(2);
    assert!(!r.is_complete());
    assert!(!r.add_agent("a".to_string()));
    assert_eq!(
        r.timeout_message("nats://h:4222"),
        "Timed out waiting for agents (1/2 registered). Make sure agents are running and can reach nats://h:4222."
    );
    assert!(r.add_agent("b".to_string()));
    assert!(r.is_complete());
    assert!(Registration::new(0).is_complete());
    assert_eq!(registration_timeout_secs(true), 30);
    assert_eq!(registration_timeout_secs(false), 300);
}

#[test]
fn repeated_announcements_count_once() {
    let mut r = Registration::new(2);
    assert!(!r.add_agent("agent-0".to_string()));
    assert!(!r.add_agent("agent-0".to_string()));
    assert!(!r.is_complete());
    assert_eq!(r.registered, vec!["agent-0".to_string()]);
    assert_eq!(
        r.timeout_message("nats://h:4222"),
        "Timed out waiting for agents (1/2 registered). Make sure agents are running and can reach nats://h:4222."
    );
    assert!(r.add_agent("agent-1".to_string()));
    assert!(r.add_agent("agent-0".to_string()));
    let msgs = shard_messages(&make_plan(10, None), 2, &r.registered, 0);
    let to: Vec<&str> = msgs.iter().map(|m| m.agent_id.as_str()).collect();
    assert_eq!(to, vec!["agent-0", "agent-1"]);
}

#[test]
fn fleet_does_not_wait_for_strangers() {
    let mut fleet = Fleet::new(&vec!["a".to_string(), "b".to_string()], 0);
    fleet.on_report(report("stray", "steady", 1), SEC);
    fleet.on_report(report("a", "done", 1), SEC);
    fleet.on_report(report("stray-2", "done", 1), SEC);
    assert!(!fleet.on_tick(2 * SEC, 0).over);
    fleet.on_report(report("b", "done", 1), 2 * SEC);
    assert!(fleet.on_tick(2 * SEC, 0).over);
}

#[test]
fn fleet_is_over_when_all_are_done() {
    let mut fleet = Fleet::new(&vec!["a".to_string(), "b".to_string()], 0);
    fleet.on_report(report("a", "done", 5), SEC);
    fleet.on_report(report("b", "steady", 6), SEC);
    let r = fleet.on_tick(2 * SEC, 9);
    assert!(!r.over);
    let agg = r.aggregate.unwrap();
    assert_eq!(agg.requests_total, 11);
    assert_eq!(agg.timestamp_ns, 9);
    fleet.on_report(report("b", "done", 7), 3 * SEC);
    let r = fleet.on_tick(3 * SEC, 9);
    assert!(r.over);
    assert_eq!(r.aggregate.unwrap().requests_total, 12);
    assert_eq!(fleet.finish(1).unwrap().phase, "done");
}

#[test]
fn test_goes_on_without_a_lost_agent() {
    let mut fleet = Fleet::new(&vec!["a".to_string(), "b".to_string()], 0);
    fleet.on_report(report("a", "steady", 1), 10 * SEC);
    assert!(!fleet.on_tick(15 * SEC - 1, 0).over);
    assert_eq!(fleet.timed_out.len(), 0);
    assert!(!fleet.on_tick(15 * SEC, 0).over);
    assert_eq!(fleet.timed_out.len(), 1);
    assert!(fleet.timed_out.contains("b"));
    fleet.on_report(report("a", "done", 1), 17 * SEC);
    assert!(fleet.on_tick(17 * SEC, 0).over);
}

#[test]
fn test_ends_when_everybody_is_lost() {
    let mut fleet = Fleet::new(&vec!["a".to_string()], 0);
    assert!(!fleet.on_tick(SEC, 0).over);
    assert!(fleet.on_tick(20 * SEC, 0).over);
}

#[test]
fn lost_agent_comes_back() {
    let mut fleet = Fleet::new(&vec!["a".to_string(), "b".to_string()], 0);
    fleet.on_tick(16 * SEC, 0);
    assert_eq!(fleet.timed_out.len(), 2);
    fleet.on_report(report("a", "steady", 1), 17 * SEC);
    assert!(!fleet.timed_out.contains("a"));
    assert!(!fleet.on_tick(18 * SEC, 0).over);
}

#[test]
fn empty_fleet_waits() {
    let mut fleet = Fleet::new(&vec![], 0);
    let r = fleet.on_tick(100 * SEC, 0);
    assert!(!r.over);
    assert_eq!(r.aggregate.unwrap().phase, "ramp_up");
}

#[test]
fn last_report_of_an_agent_counts() {
    let mut fleet = Fleet::new(&vec![], 0);
    fleet.on_report(report("a", "steady", 1), 0);
    fleet.on_report(report("b", "steady", 10), 0);
    fleet.on_report(report("a", "steady", 2), 0);
    assert_eq!(fleet.latest.len(), 2);
    assert_eq!(fleet.finish(0).unwrap().requests_total, 12);
}

#[test]
fn shutdown_gives_time_to_drain() {
    assert_eq!(on_shutdown_signal(true), Some(FleetEnd::Shutdown));
    assert_eq!(on_shutdown_signal(false), None);
    assert_eq!(FleetEnd::Shutdown.drain_ms(), 3000);
    assert_eq!(FleetEnd::Finished.drain_ms(), 500);
    assert_eq!(stop_command(), "stop");
}

#[test]
fn subjects_are_told_apart() {
    assert!(is_metrics_subject("loadpilot.metrics.a"));
    assert!(!is_metrics_subject("loadpilot.metrics"));
    assert!(is_register_subject("loadpilot.register"));
    assert!(!is_register_subject("loadpilot.register.a"));
}

#[test]
fn agent_program_is_named() {
    assert_eq!(local_agent_id(12), "agent-12");
    assert_eq!(agent_file_name(true), "agent.exe");
    assert_eq!(agent_file_name(false), "agent");
    assert_eq!(
        agent_candidates("agent"),
        vec!["target/release/agent".to_string(), "target/debug/agent".to_string()]
    );
    assert_eq!(
        agent_missing("agent"),
        "Could not find agent binary 'agent'. Build it with: cargo build --release --package agent"
    );
}

#[test]
fn shards_together_follow_the_profile() {
    for mode in [Mode::Constant, Mode::Ramp, Mode::Step, Mode::Spike] {
        let mut plan = make_plan(10, None);
        plan.mode = mode;
        for t in [0, 3 * SEC, 10 * SEC, 30 * SEC, 59 * SEC] {
            let (phase, rate) = compute_phase_and_rps(t, &plan);
            let mut sum = 0;
            for i in 0..4 {
                let (shard_phase, shard_rate) = compute_phase_and_rps(t, &shard(&plan, 4, i));
                assert_eq!(shard_phase, phase);
                assert_eq!(shard_rate.den, rate.den);
                sum += shard_rate.num;
            }
            assert_eq!(sum, rate.num);
        }
    }
}

use loadpilot::map::StringMap;
use loadpilot::number::Fraction;
use loadpilot::plan::{HttpMethod, Mode, ScenarioPlan, TaskPlan};
use loadpilot::scheduler::{compute_phase_and_rps, pick_task, weights_fit, Phase};

fn make_task(name: &str, weight: u32) -> TaskPlan {
    TaskPlan {
        name: name.to_string(),
        weight,
        url: "/".to_string(),
        method: HttpMethod::Get,
        headers: StringMap::new(),
        body_template: None,
    }
}

fn plan_for_mode(mode: Mode, rps: u64, duration: u64, ramp_up: u64, steps: u64) -> ScenarioPlan {
    ScenarioPlan {
        name: "T".into(),
        rps,
        duration_secs: duration,
        ramp_up_secs: ramp_up,
        mode,
        target_url: "http://localhost".into(),
        tasks: vec![],
        scenario_file: None,
        scenario_class: None,
        n_vusers: None,
        vuser_configs: vec![],
        steps,
    }
}

fn secs(s: f64) -> u64 {
    (s * 1e9) as u64
}

fn value(f: Fraction) -> f64 {
    f.num as f64 / f.den as f64
}

fn at(elapsed: f64, plan: &ScenarioPlan) -> (Phase, f64) {
    let (phase, rate) = compute_phase_and_rps(secs(elapsed), plan);
    (phase, value(rate))
}

// ── Load profile ─────────────────────────────────────────────────────────────

#[test]
fn coordinator_ramp_before_ramp_scales_linearly() {
    let plan = plan_for_mode(Mode::Ramp, 100, 60, 10, 5);
    let (phase, rps) = at(5.0, &plan);
    assert_eq!(phase, Phase::RampUp);
    assert!((rps - 50.0).abs() < 0.01);
}

#[test]
fn coordinator_ramp_after_ramp_is_full() {
    let plan = plan_for_mode(Mode::Ramp, 100, 60, 10, 5);
    let (phase, rps) = at(15.0, &plan);
    assert_eq!(phase, Phase::Steady);
    assert_eq!(rps, 100.0);
}

#[test]
fn coordinator_ramp_start_is_zero() {
    let plan = plan_for_mode(Mode::Ramp, 100, 60, 10, 5);
    let (phase, rps) = at(0.0, &plan);
    assert_eq!(phase, Phase::RampUp);
    assert_eq!(rps, 0.0);
}

#[test]
fn coordinator_constant_always_full_rps() {
    let plan = plan_for_mode(Mode::Constant, 100, 60, 10, 5);
    for t in [0.0, 1.0, 30.0, 59.9] {
        let (phase, rps) = at(t, &plan);
        assert_eq!(phase, Phase::Steady);
        assert_eq!(rps, 100.0);
    }
}

#[test]
fn coordinator_step_first_step_is_fraction() {
    let plan = plan_for_mode(Mode::Step, 100, 60, 0, 5);
    let (_, rps) = at(5.0, &plan);
    assert!((rps - 20.0).abs() < 0.01);
}

#[test]
fn coordinator_step_last_step_is_full_rps() {
    let plan = plan_for_mode(Mode::Step, 100, 60, 0, 5);
    let (_, rps) = at(55.0, &plan);
    assert!((rps - 100.0).abs() < 0.01);
}

#[test]
fn coordinator_spike_middle_third_is_peak() {
    let plan = plan_for_mode(Mode::Spike, 100, 60, 0, 5);
    let (phase, rps) = at(30.0, &plan);
    assert_eq!(phase, Phase::RampUp);
    assert_eq!(rps, 100.0);
}

#[test]
fn coordinator_spike_final_third_is_recovery() {
    let plan = plan_for_mode(Mode::Spike, 100, 60, 0, 5);
    let (phase, rps) = at(50.0, &plan);
    assert_eq!(phase, Phase::RampDown);
    assert!((rps - 20.0).abs() < 0.01);
}

#[test]
fn coordinator_spike_first_third_is_baseline() {
    let plan = plan_for_mode(Mode::Spike, 100, 60, 0, 5);
    let (phase, rps) = at(5.0, &plan);
    assert_eq!(phase, Phase::Steady);
    assert!((rps - 20.0).abs() < 0.01);
}

#[test]
fn tests_ramp_before_ramp_scales_linearly() {
    let plan = plan_for_mode(Mode::Ramp, 100, 60, 10, 5);
    let (phase, rps) = at(5.0, &plan);
    assert_eq!(phase, Phase::RampUp);
    assert!((rps - 50.0).abs() < 0.01);
}

#[test]
fn tests_ramp_after_ramp_is_full() {
    let plan = plan_for_mode(Mode::Ramp, 100, 60, 10, 5);
    let (phase, rps) = at(15.0, &plan);
    assert_eq!(phase, Phase::Steady);
    assert_eq!(rps, 100.0);
}

#[test]
fn tests_ramp_start_is_zero() {
    let plan = plan_for_mode(Mode::Ramp, 100, 60, 10, 5);
    let (phase, rps) = at(0.0, &plan);
    assert_eq!(phase, Phase::RampUp);
    assert_eq!(rps, 0.0);
}

#[test]
fn tests_constant_always_full_rps() {
    let plan = plan_for_mode(Mode::Constant, 100, 60, 10, 5);
    for t in [0.0, 1.0, 30.0, 59.9] {
        let (phase, rps) = at(t, &plan);
        assert_eq!(phase, Phase::Steady);
        assert_eq!(rps, 100.0);
    }
}

#[test]
fn tests_step_first_step_is_fraction() {
    let plan = plan_for_mode(Mode::Step, 100, 60, 0, 5);
    let (_, rps) = at(5.0, &plan);
    assert!((rps - 20.0).abs() < 0.01);
}

#[test]
fn tests_step_last_step_is_full_rps() {
    let plan = plan_for_mode(Mode::Step, 100, 60, 0, 5);
    let (_, rps) = at(55.0, &plan);
    assert!((rps - 100.0).abs() < 0.01);
}

#[test]
fn tests_spike_middle_third_is_peak() {
    let plan = plan_for_mode(Mode::Spike, 100, 60, 0, 5);
    let (phase, rps) = at(30.0, &plan);
    assert_eq!(phase, Phase::RampUp);
    assert_eq!(rps, 100.0);
}

#[test]
fn tests_spike_final_third_is_recovery() {
    let plan = plan_for_mode(Mode::Spike, 100, 60, 0, 5);
    let (phase, rps) = at(50.0, &plan);
    assert_eq!(phase, Phase::RampDown);
    assert!((rps - 20.0).abs() < 0.01);
}

#[test]
fn tests_spike_first_third_is_baseline() {
    let plan = plan_for_mode(Mode::Spike, 100, 60, 0, 5);
    let (phase, rps) = at(5.0, &plan);
    assert_eq!(phase, Phase::Steady);
    assert!((rps - 20.0).abs() < 0.01);
}

#[test]
fn ramp_without_window_is_steady_at_once() {
    let plan = plan_for_mode(Mode::Ramp, 7, 60, 0, 5);
    let (phase, rate) = compute_phase_and_rps(0, &plan);
    assert_eq!(phase, Phase::Steady);
    assert_eq!(rate, Fraction { num: 7, den: 1 });
}

#[test]
fn ramp_rate_is_an_exact_fraction() {
    let plan = plan_for_mode(Mode::Ramp, 100, 60, 3, 5);
    let (_, rate) = compute_phase_and_rps(1_000_000_000, &plan);
    assert_eq!(rate, Fraction { num: 100_000_000_000, den: 3_000_000_000 });
}

#[test]
fn spike_baseline_is_a_fifth_of_any_rate() {
    let plan = plan_for_mode(Mode::Spike, 3, 60, 0, 5);
    let (phase, rate) = compute_phase_and_rps(5_000_000_000, &plan);
    assert_eq!(phase, Phase::Steady);
    assert_eq!(rate, Fraction { num: 3, den: 5 });
    let (phase, rate) = compute_phase_and_rps(50_000_000_000, &plan);
    assert_eq!(phase, Phase::RampDown);
    assert_eq!(rate, Fraction { num: 3, den: 5 });
}

#[test]
fn step_without_steps_or_duration_is_full() {
    let plan = plan_for_mode(Mode::Step, 10, 0, 0, 0);
    let (phase, rate) = compute_phase_and_rps(5, &plan);
    assert_eq!(phase, Phase::Steady);
    assert_eq!(rate, Fraction { num: 10, den: 1 });
}

#[test]
fn step_stays_at_full_rate_after_its_end() {
    let plan = plan_for_mode(Mode::Step, 100, 60, 0, 5);
    let (_, rate) = compute_phase_and_rps(secs(100.0), &plan);
    assert_eq!(rate, Fraction { num: 500, den: 5 });
}

// ── Choice of tasks ──────────────────────────────────────────────────────────

#[test]
fn coordinator_pick_task_empty_returns_none() {
    assert!(pick_task(&[], 0).is_none());
}

#[test]
fn coordinator_pick_task_single_task_always_selected() {
    let tasks = vec![make_task("only", 1)];
    for i in 0..5 {
        assert_eq!(pick_task(&tasks, i).unwrap().name, "only");
    }
}

#[test]
fn coordinator_pick_task_equal_weights_round_robin() {
    let tasks = vec![make_task("a", 1), make_task("b", 1)];
    assert_eq!(pick_task(&tasks, 0).unwrap().name, "a");
    assert_eq!(pick_task(&tasks, 1).unwrap().name, "b");
    assert_eq!(pick_task(&tasks, 2).unwrap().name, "a");
}

#[test]
fn coordinator_pick_task_higher_weight_selected_more() {
    let tasks = vec![make_task("a", 1), make_task("b", 3)];
    let names: Vec<&str> = (0..4)
        .map(|i| pick_task(&tasks, i).unwrap().name.as_str())
        .collect();
    assert_eq!(names, vec!["a", "b", "b", "b"]);
}

#[test]
fn coordinator_pick_task_wraps_around() {
    let tasks = vec![make_task("a", 1), make_task("b", 1)];
    assert_eq!(pick_task(&tasks, 4).unwrap().name, "a");
    assert_eq!(pick_task(&tasks, 5).unwrap().name, "b");
}

#[test]
fn tests_pick_task_empty_returns_none() {
    assert!(pick_task(&[], 0).is_none());
}

#[test]
fn tests_pick_task_single_task_always_selected() {
    let tasks = vec![make_task("only", 1)];
    for i in 0..5 {
        assert_eq!(pick_task(&tasks, i).unwrap().name, "only");
    }
}

#[test]
fn tests_pick_task_equal_weights_round_robin() {
    let tasks = vec![make_task("a", 1), make_task("b", 1)];
    assert_eq!(pick_task(&tasks, 0).unwrap().name, "a");
    assert_eq!(pick_task(&tasks, 1).unwrap().name, "b");
    assert_eq!(pick_task(&tasks, 2).unwrap().name, "a");
}

#[test]
fn tests_pick_task_higher_weight_selected_more() {
    let tasks = vec![make_task("a", 1), make_task("b", 3)];
    let names: Vec<&str> = (0..4)
        .map(|i| pick_task(&tasks, i).unwrap().name.as_str())
        .collect();
    assert_eq!(names, vec!["a", "b", "b", "b"]);
}

#[test]
fn tests_pick_task_wraps_around() {
    let tasks = vec![make_task("a", 1), make_task("b", 1)];
    assert_eq!(pick_task(&tasks, 4).unwrap().name, "a");
    assert_eq!(pick_task(&tasks, 5).unwrap().name, "b");
}

#[test]
fn unweighted_tasks_are_picked_in_turn() {
    let tasks = vec![make_task("a", 0), make_task("b", 0), make_task("c", 0)];
    let names: Vec<&str> = (0..4)
        .map(|i| pick_task(&tasks, i).unwrap().name.as_str())
        .collect();
    assert_eq!(names, vec!["a", "b", "c", "a"]);
}

#[test]
fn any_full_turn_follows_the_weights() {
    let tasks = vec![make_task("a", 2), make_task("b", 0), make_task("c", 3)];
    for start in 0..7 {
        let mut counts = [0, 0, 0];
        for i in start..start + 5 {
            match pick_task(&tasks, i).unwrap().name.as_str() {
                "a" => counts[0] += 1,
                "b" => counts[1] += 1,
                _ => counts[2] += 1,
            }
        }
        assert_eq!(counts, [2, 0, 3]);
    }
}

#[test]
fn weights_that_overflow_are_found_out() {
    assert!(weights_fit(&[make_task("a", u32::MAX)]));
    assert!(!weights_fit(&[make_task("a", u32::MAX), make_task("b", 1)]));
}

#[test]
fn phases_have_their_names() {
    assert_eq!(Phase::RampUp.as_str(), "ramp_up");
    assert_eq!(Phase::Steady.as_str(), "steady");
    assert_eq!(Phase::RampDown.as_str(), "ramp_down");
    assert_eq!(Phase::Done.as_str(), "done");
}

//! The load profile over time and the choice of tasks by weight.
use crate::number::nanos_of;
use crate::number::Fraction;
use crate::plan::Mode;
use crate::plan::ScenarioPlan;
use crate::plan::TaskPlan;
use vstd::prelude::*;

verus! {

// ── Phases ────────────────────────────────────────────────────────────────────

/// The phase of a test.
#[derive(Clone, Copy, Debug, PartialEq, Eq, Structural)]
pub enum Phase {
    RampUp,
    Steady,
    RampDown,
    Done,
}

/// The name of a phase.
pub open spec fn phase_name(p: Phase) -> Seq<char> {
    match p {
        Phase::RampUp => "ramp_up"@,
        Phase::Steady => "steady"@,
        Phase::RampDown => "ramp_down"@,
        Phase::Done => "done"@,
    }
}

impl Phase {
    /// The name of the phase.
    pub fn as_str(&self) -> (s: &'static str)
        ensures
            s@ == phase_name(*self),
    {
        match self {
            Phase::RampUp => "ramp_up",
            Phase::Steady => "steady",
            Phase::RampDown => "ramp_down",
            Phase::Done => "done",
        }
    }
}

// ── Load profile ──────────────────────────────────────────────────────────────

/// A load profile: its shape and its numbers.
#[derive(Clone, Copy, Debug, PartialEq, Eq, Structural)]
pub struct Profile {
    pub mode: Mode,
    pub rps: u64,
    pub duration_secs: u64,
    pub ramp_up_secs: u64,
    pub steps: u64,
}

/// The number of steps of a profile: at least one.
pub open spec fn step_count(p: Profile) -> int {
    if p.steps == 0 {
        1
    } else {
        p.steps as int
    }
}

/// The step that a profile is in after `elapsed` nanoseconds, counted from 0.
/// The last step goes on after the end.
pub open spec fn step_at(p: Profile, elapsed: u64) -> int {
    let n = step_count(p);
    let window = crate::number::nanos(p.duration_secs);
    if window == 0 || elapsed * n / window >= n {
        n - 1
    } else {
        elapsed * n / window
    }
}

/// The baseline of a spike: a fifth of the rate.
pub open spec fn baseline(rps: u64) -> Fraction {
    Fraction { num: rps as u128, den: 5 }
}

/// The rate after `elapsed` nanoseconds.
pub open spec fn rate_at(p: Profile, elapsed: u64) -> Fraction {
    let full = Fraction { num: p.rps as u128, den: 1 };
    match p.mode {
        Mode::Constant => full,
        Mode::Ramp => if elapsed < crate::number::nanos(p.ramp_up_secs) {
            Fraction {
                num: (p.rps * elapsed) as u128,
                den: (crate::number::nanos(p.ramp_up_secs)) as u128,
            }
        } else {
            full
        },
        Mode::Step => Fraction {
            num: (p.rps * (step_at(p, elapsed) + 1)) as u128,
            den: step_count(p) as u128,
        },
        Mode::Spike => if in_peak(p, elapsed) {
            full
        } else {
            baseline(p.rps)
        },
    }
}

/// The middle third of a spike.
pub open spec fn in_peak(p: Profile, elapsed: u64) -> bool {
    crate::number::nanos(p.duration_secs) <= 3 * elapsed < 2 * crate::number::nanos(p.duration_secs)
}

/// The phase after `elapsed` nanoseconds.
pub open spec fn phase_at(p: Profile, elapsed: u64) -> Phase {
    match p.mode {
        Mode::Constant => Phase::Steady,
        Mode::Ramp => if elapsed < crate::number::nanos(p.ramp_up_secs) {
            Phase::RampUp
        } else {
            Phase::Steady
        },
        Mode::Step => Phase::Steady,
        Mode::Spike => if in_peak(p, elapsed) {
            Phase::RampUp
        } else if 3 * elapsed < crate::number::nanos(p.duration_secs) {
            Phase::Steady
        } else {
            Phase::RampDown
        },
    }
}

/// How long a test with this profile takes, in seconds.
pub open spec fn total_secs(p: Profile) -> int {
    match p.mode {
        Mode::Ramp => p.duration_secs + p.ramp_up_secs,
        _ => p.duration_secs as int,
    }
}

/// A number that every denominator of the profile's rates divides.
pub open spec fn rate_unit(p: Profile) -> int {
    match p.mode {
        Mode::Constant => 1,
        Mode::Ramp => if p.ramp_up_secs == 0 {
            1
        } else {
            crate::number::nanos(p.ramp_up_secs)
        },
        Mode::Step => step_count(p),
        Mode::Spike => 5,
    }
}

impl Profile {
    /// The number of steps: at least one.
    pub fn step_count(&self) -> (n: u64)
        ensures
            n == step_count(*self),
            n > 0,
    {
        if self.steps == 0 {
            1
        } else {
            self.steps
        }
    }

    /// The step after `elapsed` nanoseconds.
    pub fn step_at(&self, elapsed: u64) -> (i: u64)
        ensures
            i == step_at(*self, elapsed),
            i < step_count(*self),
    {
        let n: u64 = self.step_count();
        let window: u128 = nanos_of(self.duration_secs);
        if window == 0 {
            return n - 1;
        }
        proof {
            assert(elapsed * n <= 0xffff_ffff_ffff_ffff * 0xffff_ffff_ffff_ffff)
                by (nonlinear_arith)
                requires
                    0 <= elapsed <= 0xffff_ffff_ffff_ffff,
                    0 <= n <= 0xffff_ffff_ffff_ffff,
            ;
            assert(elapsed * n >= 0) by (nonlinear_arith)
                requires
                    0 <= elapsed,
                    0 <= n,
            ;
        }
        let i: u128 = elapsed as u128 * n as u128 / window;
        if i >= n as u128 {
            n - 1
        } else {
            i as u64
        }
    }

    /// The rate after `elapsed` nanoseconds.
    pub fn rate_at(&self, elapsed: u64) -> (r: Fraction)
        ensures
            r == rate_at(*self, elapsed),
            r.wf(),
    {
        proof {
            assert(0 <= self.rps * elapsed <= 0xffff_ffff_ffff_ffff * 0xffff_ffff_ffff_ffff)
                by (nonlinear_arith)
                requires
                    0 <= elapsed <= 0xffff_ffff_ffff_ffff,
                    0 <= self.rps <= 0xffff_ffff_ffff_ffff,
            ;
        }
        match self.mode {
            Mode::Constant => Fraction::whole(self.rps),
            Mode::Ramp => {
                let window: u128 = nanos_of(self.ramp_up_secs);
                if (elapsed as u128) < window {
                    Fraction::new(self.rps as u128 * elapsed as u128, window)
                } else {
                    Fraction::whole(self.rps)
                }
            },
            Mode::Step => {
                let i: u64 = self.step_at(elapsed);
                let n: u64 = self.step_count();
                proof {
                    assert(0 <= self.rps * (i + 1) <= 0xffff_ffff_ffff_ffff
                        * 0xffff_ffff_ffff_ffff) by (nonlinear_arith)
                        requires
                            0 <= i + 1 <= 0xffff_ffff_ffff_ffff,
                            0 <= self.rps <= 0xffff_ffff_ffff_ffff,
                    ;
                }
                Fraction::new(self.rps as u128 * (i as u128 + 1), n as u128)
            },
            Mode::Spike => {
                if self.in_peak(elapsed) {
                    Fraction::whole(self.rps)
                } else {
                    Fraction::new(self.rps as u128, 5)
                }
            },
        }
    }

    /// Whether `elapsed` nanoseconds lie in the middle third.
    fn in_peak(&self, elapsed: u64) -> (r: bool)
        ensures
            r == in_peak(*self, elapsed),
    {
        let window: u128 = nanos_of(self.duration_secs);
        let t: u128 = 3 * elapsed as u128;
        window <= t && t < 2 * window
    }

    /// The phase after `elapsed` nanoseconds.
    pub fn phase_at(&self, elapsed: u64) -> (r: Phase)
        ensures
            r == phase_at(*self, elapsed),
    {
        match self.mode {
            Mode::Constant => Phase::Steady,
            Mode::Ramp => {
                if (elapsed as u128) < nanos_of(self.ramp_up_secs) {
                    Phase::RampUp
                } else {
                    Phase::Steady
                }
            },
            Mode::Step => Phase::Steady,
            Mode::Spike => {
                if self.in_peak(elapsed) {
                    Phase::RampUp
                } else if 3 * (elapsed as u128) < nanos_of(self.duration_secs) {
                    Phase::Steady
                } else {
                    Phase::RampDown
                }
            },
        }
    }

    /// How long a test with this profile takes, in seconds.
    pub fn total_secs(&self) -> (s: u64)
        requires
            total_secs(*self) <= u64::MAX,
        ensures
            s == total_secs(*self),
    {
        match self.mode {
            Mode::Ramp => self.duration_secs + self.ramp_up_secs,
            _ => self.duration_secs,
        }
    }

    /// A number that every denominator of the rates divides.
    pub fn rate_unit(&self) -> (u: u128)
        ensures
            u == rate_unit(*self),
            0 < u <= 0xffff_ffff_ffff_ffff * 1_000_000_000,
    {
        match self.mode {
            Mode::Constant => 1,
            Mode::Ramp => {
                if self.ramp_up_secs == 0 {
                    1
                } else {
                    nanos_of(self.ramp_up_secs)
                }
            },
            Mode::Step => self.step_count() as u128,
            Mode::Spike => 5,
        }
    }
}

// ── Laws of the profile ───────────────────────────────────────────────────────

/// Every rate of a profile can be counted in parts of its unit.
pub proof fn rate_fits_unit(p: Profile, elapsed: u64)
    ensures
        rate_at(p, elapsed).wf(),
        rate_unit(p) % (rate_at(p, elapsed).den as int) == 0,
        0 < rate_unit(p) <= 0xffff_ffff_ffff_ffff * 1_000_000_000,
{
    let d = rate_at(p, elapsed).den as int;
    vstd::arithmetic::div_mod::lemma_mod_self_0(rate_unit(p));
    if d == 1 {
        assert(rate_unit(p) % 1 == 0);
    }
}

/// The step is one of the profile's steps.
pub proof fn step_in_range(p: Profile, elapsed: u64)
    ensures
        0 <= step_at(p, elapsed) < step_count(p),
{
    let n = step_count(p);
    let window = crate::number::nanos(p.duration_secs);
    if window > 0 {
        assert(elapsed * n >= 0) by (nonlinear_arith)
            requires
                elapsed >= 0,
                n > 0,
        ;
        assert(elapsed * n / window >= 0) by (nonlinear_arith)
            requires
                elapsed * n >= 0,
                window > 0,
        ;
    }
}

/// No profile asks for more than its full rate.
pub proof fn rate_is_bounded(p: Profile, elapsed: u64)
    ensures
        rate_at(p, elapsed).num <= p.rps * rate_at(p, elapsed).den,
{
    let rps = p.rps as int;
    let d = rate_at(p, elapsed).den as int;
    if p.mode == Mode::Ramp && elapsed < crate::number::nanos(p.ramp_up_secs) {
        let w = crate::number::nanos(p.ramp_up_secs);
        let t = elapsed as int;
        assert(0 <= rps * t <= 0xffff_ffff_ffff_ffff * 0xffff_ffff_ffff_ffff) by (nonlinear_arith)
            requires
                0 <= t <= 0xffff_ffff_ffff_ffff,
                0 <= rps <= 0xffff_ffff_ffff_ffff,
        ;
        assert(rps * t <= rps * w) by (nonlinear_arith)
            requires
                0 <= rps,
                t <= w,
        ;
    } else if p.mode == Mode::Step {
        step_in_range(p, elapsed);
        let i = step_at(p, elapsed);
        let n = step_count(p);
        assert(0 <= rps * (i + 1) <= rps * n) by (nonlinear_arith)
            requires
                0 <= i < n,
                0 <= rps,
        ;
        assert(rps * n <= 0xffff_ffff_ffff_ffff * 0xffff_ffff_ffff_ffff) by (nonlinear_arith)
            requires
                0 <= n <= 0xffff_ffff_ffff_ffff,
                0 <= rps <= 0xffff_ffff_ffff_ffff,
        ;
    }
    assert(d == 1 ==> rps * d == rps);
    assert(d == 5 ==> rps * d == rps * 5);
}

/// A ramp starts at nothing, grows without ever falling back, and holds the
/// full rate from the end of its window on.
pub proof fn ramp_grows(p: Profile, t1: u64, t2: u64)
    requires
        p.mode == Mode::Ramp,
        t1 <= t2,
    ensures
        rate_at(p, t1).num * rate_at(p, t2).den <= rate_at(p, t2).num * rate_at(p, t1).den,
        p.ramp_up_secs > 0 ==> rate_at(p, 0).num == 0,
        t1 >= crate::number::nanos(p.ramp_up_secs) ==> rate_at(p, t1) == (Fraction {
            num: p.rps as u128,
            den: 1,
        }),
{
    rate_is_bounded(p, t1);
    let w = crate::number::nanos(p.ramp_up_secs);
    let rps = p.rps as int;
    let a = t1 as int;
    let b = t2 as int;
    assert(0 <= rps * a <= rps * b <= 0xffff_ffff_ffff_ffff * 0xffff_ffff_ffff_ffff)
        by (nonlinear_arith)
        requires
            0 <= a <= b <= 0xffff_ffff_ffff_ffff,
            0 <= rps <= 0xffff_ffff_ffff_ffff,
    ;
    if t2 < w {
        assert((rps * a) * w <= (rps * b) * w) by (nonlinear_arith)
            requires
                0 <= rps * a <= rps * b,
                0 <= w,
        ;
    } else {
        let n1 = rate_at(p, t1).num;
        assert(n1 * 1 == n1);
    }
    assert(rps * 0 == 0);
}

/// In the window number `k` of a stepped profile the rate is `k + 1` parts of
/// as many as there are steps; it rises from window to window up to the full
/// rate.
pub proof fn steps_rise(p: Profile, k: int, elapsed: u64)
    requires
        p.mode == Mode::Step,
        p.duration_secs > 0,
        0 <= k < step_count(p),
        k * (crate::number::nanos(p.duration_secs)) <= elapsed * step_count(p),
        elapsed * step_count(p) < (k + 1) * (crate::number::nanos(p.duration_secs)),
    ensures
        rate_at(p, elapsed).num == p.rps * (k + 1),
        rate_at(p, elapsed).den == step_count(p),
        k + 1 == step_count(p) ==> rate_at(p, elapsed).num == p.rps * rate_at(p, elapsed).den,
{
    let w = crate::number::nanos(p.duration_secs);
    let x = elapsed * step_count(p);
    let r = x - k * w;
    assert((k + 1) * w == k * w + w) by (nonlinear_arith);
    vstd::arithmetic::div_mod::lemma_fundamental_div_mod_converse(x, w, k, r);
    assert(0 <= p.rps * (k + 1) <= 0xffff_ffff_ffff_ffff * 0xffff_ffff_ffff_ffff)
        by (nonlinear_arith)
        requires
            0 <= k + 1 <= 0xffff_ffff_ffff_ffff,
            0 <= p.rps <= 0xffff_ffff_ffff_ffff,
    ;
}

/// A spike is its baseline in the first and the last third and the full rate in
/// between.
pub proof fn spike_thirds(p: Profile, elapsed: u64)
    requires
        p.mode == Mode::Spike,
    ensures
        3 * elapsed < crate::number::nanos(p.duration_secs) ==> rate_at(p, elapsed) == baseline(p.rps)
            && phase_at(p, elapsed) == Phase::Steady,
        crate::number::nanos(p.duration_secs) <= 3 * elapsed < 2 * crate::number::nanos(p.duration_secs)
            ==> rate_at(p, elapsed) == (Fraction { num: p.rps as u128, den: 1 }) && phase_at(
            p,
            elapsed,
        ) == Phase::RampUp,
        3 * elapsed >= 2 * crate::number::nanos(p.duration_secs) && p.duration_secs > 0 ==> rate_at(
            p,
            elapsed,
        ) == baseline(p.rps) && phase_at(p, elapsed) == Phase::RampDown,
{
}

// ── The plan's profile ────────────────────────────────────────────────────────

/// The load profile of a plan.
pub open spec fn profile_of(plan: ScenarioPlan) -> Profile {
    Profile {
        mode: plan.mode,
        rps: plan.rps,
        duration_secs: plan.duration_secs,
        ramp_up_secs: plan.ramp_up_secs,
        steps: plan.steps,
    }
}

/// The load profile of a plan.
pub fn profile(plan: &ScenarioPlan) -> (p: Profile)
    ensures
        p == profile_of(*plan),
{
    Profile {
        mode: plan.mode,
        rps: plan.rps,
        duration_secs: plan.duration_secs,
        ramp_up_secs: plan.ramp_up_secs,
        steps: plan.steps,
    }
}

/// The phase and the target rate after `elapsed` nanoseconds.
///
/// - constant: the full rate at once.
/// - ramp: linear from 0 to the full rate over the ramp-up window, then steady.
/// - step: equal windows, each at `rps * step_number / steps`.
/// - spike: thirds, at a fifth of the rate, the full rate, and a fifth again.
pub fn compute_phase_and_rps(elapsed: u64, plan: &ScenarioPlan) -> (r: (Phase, Fraction))
    ensures
        r.0 == phase_at(profile_of(*plan), elapsed),
        r.1 == rate_at(profile_of(*plan), elapsed),
        r.1.wf(),
{
    let p = profile(plan);
    (p.phase_at(elapsed), p.rate_at(elapsed))
}

// ── Choice of tasks ───────────────────────────────────────────────────────────

/// The weights of the tasks.
pub open spec fn weights(tasks: Seq<TaskPlan>) -> Seq<nat> {
    tasks.map_values(|t: TaskPlan| t.weight as nat)
}

/// The position whose share of the slots holds `slot`: slots are dealt out in
/// order, as many to each position as its weight says.
pub open spec fn owner(ws: Seq<nat>, slot: int) -> int
    decreases ws.len(),
{
    if ws.len() == 0 {
        0
    } else if slot < ws[0] {
        0
    } else {
        1 + owner(ws.drop_first(), slot - ws[0])
    }
}

/// After how many picks the choice of tasks starts again.
pub open spec fn period(ws: Seq<nat>) -> int {
    if crate::number::total(ws) == 0 {
        ws.len() as int
    } else {
        crate::number::total(ws) as int
    }
}

/// The position that pick number `index` falls on. Tasks without any weight
/// take turns.
pub open spec fn picked(ws: Seq<nat>, index: int) -> int {
    if crate::number::total(ws) == 0 {
        index % period(ws)
    } else {
        owner(ws, index % period(ws))
    }
}

/// The position that owns `slot`, given the weights.
pub fn owner_at(ws: &Vec<u32>, slot: u32) -> (i: usize)
    requires
        crate::number::total(ws@.map_values(|w: u32| w as nat)) <= u32::MAX,
        slot < crate::number::total(ws@.map_values(|w: u32| w as nat)),
    ensures
        i == owner(ws@.map_values(|w: u32| w as nat), slot as int),
        i < ws@.len(),
{
    let ghost nats = ws@.map_values(|w: u32| w as nat);
    let mut cumulative: u32 = 0;
    let mut i: usize = 0;
    proof {
        assert(nats.skip(0) =~= nats);
        assert(nats.take(0) =~= Seq::<nat>::empty());
        assert(nats.take(nats.len() as int) =~= nats);
    }
    while i < ws.len()
        invariant
            nats == ws@.map_values(|w: u32| w as nat),
            crate::number::total(nats) <= u32::MAX,
            nats.take(nats.len() as int) == nats,
            slot < crate::number::total(nats),
            i <= ws@.len(),
            cumulative == crate::number::total(nats.take(i as int)),
            cumulative <= slot,
            owner(nats, slot as int) == i + owner(nats.skip(i as int), slot - cumulative),
        decreases ws@.len() - i,
    {
        proof {
            crate::number::total_step(nats, i as int);
            crate::number::total_monotone(nats, i + 1);
            assert(nats.skip(i as int).drop_first() =~= nats.skip(i + 1));
            assert(nats.skip(i as int)[0] == ws@[i as int]);
        }
        cumulative = cumulative + ws[i];
        if slot < cumulative {
            return i;
        }
        i = i + 1;
    }
    0
}

/// The weights as a vector, and their sum.
fn weight_list(tasks: &[TaskPlan]) -> (r: (Vec<u32>, u32))
    requires
        crate::number::total(weights(tasks@)) <= u32::MAX,
    ensures
        r.0@.map_values(|w: u32| w as nat) == weights(tasks@),
        r.1 == crate::number::total(weights(tasks@)),
{
    let mut ws: Vec<u32> = Vec::new();
    let mut sum: u32 = 0;
    let ghost nats = weights(tasks@);
    let mut i: usize = 0;
    proof {
        assert(nats.take(0) =~= Seq::<nat>::empty());
    }
    while i < tasks.len()
        invariant
            nats == weights(tasks@),
            crate::number::total(nats) <= u32::MAX,
            i <= tasks@.len(),
            ws@.len() == i,
            forall|j: int| 0 <= j < i ==> #[trigger] ws@[j] == tasks@[j].weight,
            sum == crate::number::total(nats.take(i as int)),
        decreases tasks@.len() - i,
    {
        proof {
            crate::number::total_step(nats, i as int);
            crate::number::total_monotone(nats, i + 1);
        }
        ws.push(tasks[i].weight);
        sum = sum + tasks[i].weight;
        i = i + 1;
    }
    proof {
        assert(nats.take(nats.len() as int) =~= nats);
        assert(ws@.map_values(|w: u32| w as nat) =~= nats);
    }
    (ws, sum)
}

/// The position of the task for pick number `index`. The number of the pick
/// counts modulo 2^32.
pub fn pick_index(tasks: &[TaskPlan], index: usize) -> (r: Option<usize>)
    requires
        crate::number::total(weights(tasks@)) <= u32::MAX,
    ensures
        r is None <==> tasks@.len() == 0,
        r matches Some(i) ==> i < tasks@.len() && i == pick_of(weights(tasks@), index),
{
    if tasks.len() == 0 {
        return None;
    }
    let (ws, sum) = weight_list(tasks);
    if sum == 0 {
        return Some(index % tasks.len());
    }
    let slot: u32 = (index as u64 % 0x1_0000_0000u64) as u32 % sum;
    Some(owner_at(&ws, slot))
}

/// The position for pick number `index`, where the number counts modulo 2^32
/// among tasks that have weights.
pub open spec fn pick_of(ws: Seq<nat>, index: usize) -> int {
    if crate::number::total(ws) == 0 {
        picked(ws, index as int)
    } else {
        picked(ws, index as int % 0x1_0000_0000)
    }
}

/// The task for pick number `index`: none where there are no tasks.
pub fn pick_task(tasks: &[TaskPlan], index: usize) -> (r: Option<&TaskPlan>)
    requires
        crate::number::total(weights(tasks@)) <= u32::MAX,
    ensures
        r is None <==> tasks@.len() == 0,
        r matches Some(t) ==> 0 <= pick_of(weights(tasks@), index) < tasks@.len() && *t
            == tasks@[pick_of(weights(tasks@), index)],
{
    match pick_index(tasks, index) {
        Some(i) => Some(&tasks[i]),
        None => None,
    }
}

/// Whether the weights of the tasks add up to a 32-bit number.
pub fn weights_fit(tasks: &[TaskPlan]) -> (r: bool)
    ensures
        r == (crate::number::total(weights(tasks@)) <= u32::MAX),
{
    let mut sum: u32 = 0;
    let ghost nats = weights(tasks@);
    let mut i: usize = 0;
    proof {
        assert(nats.take(0) =~= Seq::<nat>::empty());
    }
    while i < tasks.len()
        invariant
            nats == weights(tasks@),
            i <= tasks@.len(),
            sum == crate::number::total(nats.take(i as int)),
        decreases tasks@.len() - i,
    {
        proof {
            crate::number::total_step(nats, i as int);
            crate::number::total_monotone(nats, i + 1);
        }
        match sum.checked_add(tasks[i].weight) {
            Some(s) => {
                sum = s;
            },
            None => {
                return false;
            },
        }
        i = i + 1;
    }
    proof {
        assert(nats.take(nats.len() as int) =~= nats);
    }
    true
}

// ── Laws of the choice ────────────────────────────────────────────────────────

/// Each position owns as many slots as its weight says: those from the sum of
/// the weights before it on.
pub proof fn owner_of_slot(ws: Seq<nat>, slot: int, i: int)
    requires
        0 <= slot < crate::number::total(ws),
        0 <= i < ws.len(),
    ensures
        owner(ws, slot) == i <==> crate::number::total(ws.take(i)) <= slot
            < crate::number::total(ws.take(i)) + ws[i],
        0 <= owner(ws, slot) < ws.len(),
    decreases ws.len(),
{
    let rest = ws.drop_first();
    assert(ws =~= seq![ws[0]] + rest);
    crate::number::total_concat(seq![ws[0]], rest);
    assert(seq![ws[0]].drop_last() =~= Seq::<nat>::empty());
    assert(crate::number::total(Seq::<nat>::empty()) == 0);
    assert(crate::number::total(seq![ws[0]]) == ws[0]);
    if i == 0 {
        assert(ws.take(0) =~= Seq::<nat>::empty());
        if slot >= ws[0] {
            owner_of_slot_range(rest, slot - ws[0]);
        }
    } else {
        assert(ws.take(i) =~= seq![ws[0]] + rest.take(i - 1));
        crate::number::total_concat(seq![ws[0]], rest.take(i - 1));
        if slot >= ws[0] {
            owner_of_slot(rest, slot - ws[0], i - 1);
        }
    }
}

proof fn owner_of_slot_range(ws: Seq<nat>, slot: int)
    requires
        0 <= slot < crate::number::total(ws),
    ensures
        0 <= owner(ws, slot) < ws.len(),
    decreases ws.len(),
{
    if ws.len() > 0 && slot >= ws[0] {
        let rest = ws.drop_first();
        assert(ws =~= seq![ws[0]] + rest);
        crate::number::total_concat(seq![ws[0]], rest);
        assert(seq![ws[0]].drop_last() =~= Seq::<nat>::empty());
        assert(crate::number::total(Seq::<nat>::empty()) == 0);
        assert(crate::number::total(seq![ws[0]]) == ws[0]);
        owner_of_slot_range(rest, slot - ws[0]);
    }
}

/// How many of the `n` picks from number `start` on fall on position `i`.
pub open spec fn picks(ws: Seq<nat>, start: int, n: nat, i: int) -> nat
    decreases n,
{
    if n == 0 {
        0
    } else {
        picks(ws, start, (n - 1) as nat, i) + (if picked(ws, start + n - 1) == i {
            1nat
        } else {
            0nat
        })
    }
}

proof fn lemma_picks_front(ws: Seq<nat>, start: int, n: nat, i: int)
    requires
        n > 0,
    ensures
        picks(ws, start, n, i) == picks(ws, start + 1, (n - 1) as nat, i) + (if picked(ws, start)
            == i {
            1nat
        } else {
            0nat
        }),
    decreases n,
{
    if n > 1 {
        lemma_picks_front(ws, start, (n - 1) as nat, i);
    } else {
        assert(picks(ws, start, 0, i) == 0);
        assert(picks(ws, start + 1, 0, i) == 0);
    }
}

proof fn lemma_picks_from_zero(ws: Seq<nat>, n: nat, i: int)
    requires
        n <= crate::number::total(ws),
        0 <= i < ws.len(),
    ensures
        picks(ws, 0, n, i) == (if n <= crate::number::total(ws.take(i)) {
            0
        } else if n <= crate::number::total(ws.take(i)) + ws[i] {
            n - crate::number::total(ws.take(i))
        } else {
            ws[i] as int
        }),
    decreases n,
{
    if n > 0 {
        lemma_picks_from_zero(ws, (n - 1) as nat, i);
        owner_of_slot(ws, n - 1, i);
        vstd::arithmetic::div_mod::lemma_small_mod(
            (n - 1) as nat,
            crate::number::total(ws),
        );
    }
}

/// Of any run of picks that is as long as the weights' sum, each task gets
/// exactly as many as its weight says, wherever the run begins.
pub proof fn picks_follow_weights(ws: Seq<nat>, start: nat, i: int)
    requires
        crate::number::total(ws) > 0,
        0 <= i < ws.len(),
    ensures
        picks(ws, start as int, crate::number::total(ws), i) == ws[i],
    decreases start,
{
    let t = crate::number::total(ws);
    if start == 0 {
        crate::number::total_step(ws, i);
        crate::number::total_monotone(ws, i + 1);
        lemma_picks_from_zero(ws, t, i);
    } else {
        let s = (start - 1) as nat;
        picks_follow_weights(ws, s, i);
        lemma_picks_front(ws, s as int, t, i);
        vstd::arithmetic::div_mod::lemma_mod_add_multiples_vanish(s as int, t as int);
        assert(picked(ws, (s + t) as int) == picked(ws, s as int));
        assert(start + t - 1 == s + t);
    }
}

/// Tasks without any weight take turns: of any run of picks that is as long as
/// the list, each gets one.
pub proof fn unweighted_tasks_take_turns(ws: Seq<nat>, start: nat, i: int)
    requires
        crate::number::total(ws) == 0,
        0 <= i < ws.len(),
    ensures
        picks(ws, start as int, ws.len(), i) == 1,
    decreases start,
{
    let t = ws.len();
    if start == 0 {
        lemma_turns_from_zero(ws, t, i);
    } else {
        let s = (start - 1) as nat;
        unweighted_tasks_take_turns(ws, s, i);
        lemma_picks_front(ws, s as int, t, i);
        vstd::arithmetic::div_mod::lemma_mod_add_multiples_vanish(s as int, t as int);
        assert(picked(ws, (s + t) as int) == picked(ws, s as int));
        assert(start + t - 1 == s + t);
    }
}

proof fn lemma_turns_from_zero(ws: Seq<nat>, n: nat, i: int)
    requires
        crate::number::total(ws) == 0,
        n <= ws.len(),
        0 <= i < ws.len(),
    ensures
        picks(ws, 0, n, i) == (if n <= i {
            0nat
        } else {
            1nat
        }),
    decreases n,
{
    if n > 0 {
        lemma_turns_from_zero(ws, (n - 1) as nat, i);
        vstd::arithmetic::div_mod::lemma_small_mod((n - 1) as nat, ws.len());
    }
}

// ── Laws of plans ─────────────────────────────────────────────────────────────

/// A plan is run with its own numbers.
pub proof fn profiles_are_their_plans(plan: ScenarioPlan)
    ensures
        profile_of(plan).mode == plan.mode,
        profile_of(plan).rps == plan.rps,
        profile_of(plan).duration_secs == plan.duration_secs,
        profile_of(plan).ramp_up_secs == plan.ramp_up_secs,
        profile_of(plan).steps == plan.steps,
{
}

/// `f` is the part `a / b` of `rps` requests a second.
pub open spec fn is_part_of(f: Fraction, rps: u64, a: int, b: int) -> bool {
    f.den > 0 && f.num * b == rps * a * f.den
}

proof fn lemma_rate_numbers(p: Profile, elapsed: u64)
    ensures
        0 <= p.rps * elapsed <= 0xffff_ffff_ffff_ffff * 0xffff_ffff_ffff_ffff,
        p.mode == Mode::Step ==> 0 <= p.rps * (step_at(p, elapsed) + 1) <= 0xffff_ffff_ffff_ffff
            * 0xffff_ffff_ffff_ffff,
{
    let rps = p.rps as int;
    let t = elapsed as int;
    assert(0 <= rps * t <= 0xffff_ffff_ffff_ffff * 0xffff_ffff_ffff_ffff) by (nonlinear_arith)
        requires
            0 <= t <= 0xffff_ffff_ffff_ffff,
            0 <= rps <= 0xffff_ffff_ffff_ffff,
    ;
    step_in_range(p, elapsed);
    let k = step_at(p, elapsed) + 1;
    assert(0 <= rps * k <= 0xffff_ffff_ffff_ffff * 0xffff_ffff_ffff_ffff) by (nonlinear_arith)
        requires
            0 <= k <= 0xffff_ffff_ffff_ffff,
            0 <= rps <= 0xffff_ffff_ffff_ffff,
    ;
}

/// A constant load is at its full rate all the time, for as long as the plan says.
pub proof fn constant_load_is_constant(p: Profile, elapsed: u64)
    requires
        p.mode == Mode::Constant,
    ensures
        is_part_of(rate_at(p, elapsed), p.rps, 1, 1),
        phase_at(p, elapsed) == Phase::Steady,
        total_secs(p) == p.duration_secs,
{
}

/// A ramp is a straight line from nothing to the full rate over its window, and
/// flat afterwards; it comes on top of the duration.
pub proof fn ramp_is_a_straight_line(p: Profile, elapsed: u64)
    requires
        p.mode == Mode::Ramp,
    ensures
        elapsed < p.ramp_up_secs * 1_000_000_000 ==> is_part_of(
            rate_at(p, elapsed),
            p.rps,
            elapsed as int,
            p.ramp_up_secs * 1_000_000_000,
        ) && phase_at(p, elapsed) == Phase::RampUp,
        elapsed >= p.ramp_up_secs * 1_000_000_000 ==> is_part_of(rate_at(p, elapsed), p.rps, 1, 1)
            && phase_at(p, elapsed) == Phase::Steady,
        total_secs(p) == p.duration_secs + p.ramp_up_secs,
{
    lemma_rate_numbers(p, elapsed);
}

/// A stepped load is cut into equal windows: in window number `k` of `n`, counted
/// from 1, it is at `k` parts of `n` of its full rate, and from the last one on at
/// the full rate. Without steps it is at the full rate all the time.
pub proof fn steps_are_equal_parts(p: Profile, k: int, elapsed: u64)
    requires
        p.mode == Mode::Step,
    ensures
        p.steps > 0 && 0 < k <= p.steps && (k - 1) * (p.duration_secs * 1_000_000_000) <= elapsed
            * p.steps < k * (p.duration_secs * 1_000_000_000) ==> is_part_of(
            rate_at(p, elapsed),
            p.rps,
            k,
            p.steps as int,
        ),
        p.steps == 0 || elapsed >= p.duration_secs * 1_000_000_000 ==> is_part_of(
            rate_at(p, elapsed),
            p.rps,
            1,
            1,
        ),
        phase_at(p, elapsed) == Phase::Steady,
        total_secs(p) == p.duration_secs,
{
    let w = p.duration_secs * 1_000_000_000;
    let n = p.steps as int;
    lemma_rate_numbers(p, elapsed);
    step_in_range(p, elapsed);
    if p.steps > 0 && 0 < k <= n && (k - 1) * w <= elapsed * n < k * w {
        assert(w > 0) by (nonlinear_arith)
            requires
                (k - 1) * w < k * w,
        ;
        steps_rise(p, k - 1, elapsed);
    }
    if p.steps > 0 && elapsed >= w {
        if w > 0 {
            let t = elapsed as int;
            assert(t * n / w >= n) by (nonlinear_arith)
                requires
                    t >= w,
                    w > 0,
                    n > 0,
            ;
        }
        assert(step_at(p, elapsed) == n - 1);
    }
    if p.steps == 0 {
        assert(step_at(p, elapsed) == 0);
    }
}

/// A spike is at a fifth of its rate in the first third, at the full rate in the
/// second and at a fifth again in the last.
pub proof fn spike_has_thirds(p: Profile, elapsed: u64)
    requires
        p.mode == Mode::Spike,
    ensures
        3 * elapsed < p.duration_secs * 1_000_000_000 ==> is_part_of(
            rate_at(p, elapsed),
            p.rps,
            1,
            5,
        ) && phase_at(p, elapsed) == Phase::Steady,
        p.duration_secs * 1_000_000_000 <= 3 * elapsed < 2 * p.duration_secs * 1_000_000_000
            ==> is_part_of(rate_at(p, elapsed), p.rps, 1, 1) && phase_at(p, elapsed)
            == Phase::RampUp,
        3 * elapsed >= 2 * p.duration_secs * 1_000_000_000 ==> is_part_of(
            rate_at(p, elapsed),
            p.rps,
            1,
            5,
        ) && phase_at(p, elapsed) == Phase::RampDown,
        total_secs(p) == p.duration_secs,
{
}

/// The slots of a round are dealt out in the order of the tasks, as many to each
/// as its weight says, and the picks go through them from the first on, round by
/// round.
pub proof fn picks_go_through_the_slots(ws: Seq<nat>, index: int, i: int)
    requires
        crate::number::total(ws) > 0,
        index >= 0,
        0 <= i < ws.len(),
    ensures
        picked(ws, index) == i <==> crate::number::total(ws.take(i)) <= index
            % (crate::number::total(ws) as int) < crate::number::total(ws.take(i)) + ws[i],
        0 <= picked(ws, index) < ws.len(),
{
    let slot = index % (crate::number::total(ws) as int);
    vstd::arithmetic::div_mod::lemma_mod_bound(index, crate::number::total(ws) as int);
    owner_of_slot(ws, slot, i);
}

/// Where no task has a weight, the picks go through the tasks in order, round by
/// round.
pub proof fn unweighted_picks_go_in_order(ws: Seq<nat>, index: int)
    requires
        crate::number::total(ws) == 0,
        ws.len() > 0,
    ensures
        picked(ws, index) == index % (ws.len() as int),
{
}

/// The choice by number is that of the picks, whose numbers start again after 32
/// bits where the tasks have weights.
pub proof fn pick_numbers_are_short(ws: Seq<nat>, index: usize)
    ensures
        index < 0x1_0000_0000 ==> pick_of(ws, index) == picked(ws, index as int),
        crate::number::total(ws) > 0 && index >= 0x1_0000_0000 ==> pick_of(ws, index) == picked(
            ws,
            index as int % 0x1_0000_0000,
        ),
{
    if index < 0x1_0000_0000 {
        vstd::arithmetic::div_mod::lemma_small_mod(index as nat, 0x1_0000_0000);
    }
}

/// The names of the phases.
pub proof fn phases_have_their_names(p: Phase)
    ensures
        phase_name(p) == "ramp_up"@ <==> p == Phase::RampUp,
        phase_name(p) == "steady"@ <==> p == Phase::Steady,
        phase_name(p) == "ramp_down"@ <==> p == Phase::RampDown,
        phase_name(p) == "done"@ <==> p == Phase::Done,
{
    reveal_strlit("ramp_up");
    reveal_strlit("steady");
    reveal_strlit("ramp_down");
    reveal_strlit("done");
    assert("ramp_up"@.len() == 7 && "steady"@.len() == 6 && "ramp_down"@.len() == 9
        && "done"@.len() == 4);
}

} // verus!

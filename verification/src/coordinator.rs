//! A test run on one machine: what to dispatch at each tick, what to count and
//! what to report.
use crate::budget::RequestBudget;
use crate::http::make_request;
use crate::http::ContentType;
use crate::http::HttpRequest;
use crate::map::copy_strings;
use crate::map::StringMap;
use crate::metrics::LatencySnapshot;
use crate::metrics::Metrics;
use crate::metrics::MetricsModel;
use crate::metrics::TaskSnapshot;
use crate::number::nanos_of;
use crate::number::Fraction;
use crate::number::NANOS_PER_SEC;
use crate::plan::copy_text;
use crate::plan::HttpMethod;
use crate::plan::Mode;
use crate::plan::ScenarioPlan;
use crate::scheduler::compute_phase_and_rps;
use crate::scheduler::pick_index;
use crate::scheduler::profile;
use crate::scheduler::weights_fit;
use crate::scheduler::Phase;
use crate::text::trim_end_matches;
use crate::vuser::CallResult;
use vstd::prelude::*;

verus! {

// ── Reports ───────────────────────────────────────────────────────────────────

/// The report of one interval.
#[derive(Debug)]
pub struct MetricsSnapshot {
    /// Wall-clock time of the report, in nanoseconds since the epoch.
    pub timestamp_ns: u64,
    /// Time since the start, in nanoseconds.
    pub elapsed_ns: u64,
    pub current_rps: Fraction,
    pub target_rps: Fraction,
    pub requests_total: u64,
    pub errors_total: u64,
    pub active_workers: u64,
    pub latency: LatencySnapshot,
    pub phase: Phase,
    /// The reports of the tasks.
    pub tasks: Vec<TaskSnapshot>,
}

/// The parts of a report that come from the counters.
pub open spec fn reports_counters(s: MetricsSnapshot, m: MetricsModel) -> bool {
    &&& s.requests_total == m.requests_total
    &&& s.errors_total == m.errors_total
    &&& s.latency == crate::metrics::latency_of(m.histogram)
    &&& crate::metrics::task_report_of(m.tasks, s.tasks@)
}

// ── Sizing ────────────────────────────────────────────────────────────────────

/// How many requests may be in flight: what the rate brings in 200 ms, between
/// 50 and 2000.
pub open spec fn concurrency(rps: u64) -> int {
    if rps / 5 < 50 {
        50
    } else if rps / 5 > 2000 {
        2000
    } else {
        (rps / 5) as int
    }
}

/// How many requests may be in flight.
pub fn max_concurrency(rps: u64) -> (n: usize)
    ensures
        n == concurrency(rps),
        50 <= n <= 2000,
{
    let n: u64 = rps / 5;
    if n < 50 {
        50
    } else if n > 2000 {
        2000
    } else {
        n as usize
    }
}

/// How many idle connections are kept for each host.
pub fn max_idle(concurrency: usize) -> (n: usize)
    ensures
        n == if concurrency < 512 {
            concurrency
        } else {
            512
        },
{
    if concurrency < 512 {
        concurrency
    } else {
        512
    }
}

// ── Staggered start of virtual users ──────────────────────────────────────────

/// A step of the start of the virtual users.
#[derive(Clone, Copy, Debug, PartialEq, Eq, Structural)]
pub enum StartStep {
    /// Call `on_start` of this virtual user; it is ready afterwards.
    Call(usize),
    /// Wait this many milliseconds.
    Sleep(u64),
}

/// The pause between two calls of `on_start`, in milliseconds: the calls are
/// spaced evenly across the ramp-up window.
pub open spec fn stagger(n: usize, ramp_up_secs: u64) -> int {
    if n > 1 && ramp_up_secs > 0 {
        ramp_up_secs * 1000 / (n - 1)
    } else {
        0
    }
}

/// The start of `n` virtual users with a pause between two of them.
pub open spec fn start_steps(n: nat, pause: u64) -> Seq<StartStep>
    decreases n,
{
    if n == 0 {
        seq![]
    } else if n == 1 || pause == 0 {
        start_steps((n - 1) as nat, pause).push(StartStep::Call((n - 1) as usize))
    } else {
        start_steps((n - 1) as nat, pause).push(StartStep::Sleep(pause)).push(
            StartStep::Call((n - 1) as usize),
        )
    }
}

/// The pause between two calls of `on_start`.
pub fn stagger_ms(n: usize, ramp_up_secs: u64) -> (ms: u64)
    requires
        ramp_up_secs * 1000 <= u64::MAX,
    ensures
        ms == stagger(n, ramp_up_secs),
{
    if n > 1 && ramp_up_secs > 0 {
        let gaps: u64 = n as u64 - 1;
        proof {
            assert(0 <= ramp_up_secs * 1000 / (gaps as int) <= ramp_up_secs * 1000)
                by (nonlinear_arith)
                requires
                    gaps >= 1,
                    ramp_up_secs >= 0,
            ;
        }
        ramp_up_secs * 1000 / gaps
    } else {
        0
    }
}

/// The steps of the start of `n` virtual users.
pub fn start_schedule(n: usize, pause: u64) -> (steps: Vec<StartStep>)
    ensures
        steps@ == start_steps(n as nat, pause),
{
    let mut steps: Vec<StartStep> = Vec::new();
    let mut i: usize = 0;
    while i < n
        invariant
            i <= n,
            steps@ == start_steps(i as nat, pause),
        decreases n - i,
    {
        if i > 0 && pause > 0 {
            steps.push(StartStep::Sleep(pause));
        }
        steps.push(StartStep::Call(i));
        i = i + 1;
    }
    steps
}

/// The time that the pauses of a start take.
pub open spec fn pauses(steps: Seq<StartStep>) -> int
    decreases steps.len(),
{
    if steps.len() == 0 {
        0
    } else {
        pauses(steps.drop_last()) + (match steps.last() {
            StartStep::Sleep(ms) => ms as int,
            StartStep::Call(_) => 0,
        })
    }
}

/// The virtual users that a start calls, in order.
pub open spec fn calls(steps: Seq<StartStep>) -> Seq<usize>
    decreases steps.len(),
{
    if steps.len() == 0 {
        seq![]
    } else {
        match steps.last() {
            StartStep::Sleep(_) => calls(steps.drop_last()),
            StartStep::Call(i) => calls(steps.drop_last()).push(i),
        }
    }
}

/// The start calls every virtual user once, in order, with equal pauses.
pub proof fn start_calls_everyone(n: nat, pause: u64)
    requires
        n <= usize::MAX,
    ensures
        calls(start_steps(n, pause)) == Seq::new(n, |i: int| i as usize),
        pauses(start_steps(n, pause)) == (if n == 0 {
            0
        } else {
            (n - 1) * pause
        }),
    decreases n,
{
    if n > 0 {
        let m = (n - 1) as nat;
        start_calls_everyone(m, pause);
        let front = start_steps(m, pause);
        let last = StartStep::Call(m as usize);
        if n == 1 || pause == 0 {
            assert(front.push(last).drop_last() =~= front);
            assert(m * pause == 0) by (nonlinear_arith)
                requires
                    m == 0 || pause == 0,
            ;
            if m > 0 {
                assert((m - 1) * pause == 0) by (nonlinear_arith)
                    requires
                        pause == 0,
                ;
            }
        } else {
            let middle = front.push(StartStep::Sleep(pause));
            assert(middle.drop_last() =~= front);
            assert(calls(middle) == calls(front));
            assert(pauses(middle) == pauses(front) + pause);
            assert(middle.push(last).drop_last() =~= middle);
            assert(m * pause == (m - 1) * pause + pause) by (nonlinear_arith);
        }
        assert(calls(start_steps(n, pause)) =~= Seq::new(n, |i: int| i as usize));
    } else {
        assert(calls(start_steps(n, pause)) =~= Seq::new(n, |i: int| i as usize));
    }
}

/// The pauses of a start fit into the ramp-up window, and another millisecond
/// for each of them would not.
pub proof fn start_fills_ramp_up(n: usize, ramp_up_secs: u64)
    requires
        n > 1,
        ramp_up_secs > 0,
    ensures
        (n - 1) * stagger(n, ramp_up_secs) <= ramp_up_secs * 1000,
        (n - 1) * (stagger(n, ramp_up_secs) + 1) > ramp_up_secs * 1000,
{
    let gaps = n - 1;
    let window = ramp_up_secs * 1000;
    vstd::arithmetic::div_mod::lemma_fundamental_div_mod(window, gaps);
    let q = window / gaps;
    assert(gaps * (q + 1) == gaps * q + gaps) by (nonlinear_arith);
}

// ── Teardown ──────────────────────────────────────────────────────────────────

/// A step of the end of a run.
#[derive(Clone, Copy, Debug, PartialEq, Eq, Structural)]
pub enum EndStep {
    /// Tell the reporter to end with its next report.
    MarkDone,
    /// Wait this many milliseconds.
    Sleep(u64),
    /// Call `on_stop` of this virtual user.
    CallOnStop(usize),
    /// End all threads of virtual users.
    Shutdown,
    /// Emit the final report.
    FinalReport,
    /// Wait for the reporter to end.
    AwaitReporter,
}

/// The steps of the end of a run with the given number of virtual users.
pub open spec fn end_steps(bridge: Option<usize>) -> Seq<EndStep> {
    let start = seq![EndStep::MarkDone, EndStep::Sleep(1200)];
    let end = seq![EndStep::FinalReport, EndStep::AwaitReporter];
    match bridge {
        Some(n) => start + Seq::new(n as nat, |i: int| EndStep::CallOnStop(i as usize)) + seq![
            EndStep::Shutdown,
        ] + end,
        None => start + end,
    }
}

/// The steps of the end of a run: pending requests get time to finish, then
/// every virtual user is stopped, then the final report is emitted.
pub fn end_schedule(bridge: Option<usize>) -> (steps: Vec<EndStep>)
    ensures
        steps@ == end_steps(bridge),
{
    let mut steps: Vec<EndStep> = Vec::new();
    steps.push(EndStep::MarkDone);
    steps.push(EndStep::Sleep(1200));
    let ghost start = steps@;
    proof {
        assert(start =~= seq![EndStep::MarkDone, EndStep::Sleep(1200)]);
    }
    if let Some(n) = bridge {
        let mut i: usize = 0;
        while i < n
            invariant
                i <= n,
                steps@ == start + Seq::new(i as nat, |j: int| EndStep::CallOnStop(j as usize)),
            decreases n - i,
        {
            steps.push(EndStep::CallOnStop(i));
            i = i + 1;
        }
        steps.push(EndStep::Shutdown);
    }
    steps.push(EndStep::FinalReport);
    steps.push(EndStep::AwaitReporter);
    proof {
        assert(steps@ =~= end_steps(bridge));
    }
    steps
}

// ── The run ───────────────────────────────────────────────────────────────────

/// Why a run cannot start.
#[derive(Clone, Copy, Debug, PartialEq, Eq, Structural)]
pub enum RunError {
    NoTasks,
}

impl RunError {
    /// The message of the error.
    pub fn message(&self) -> (m: &'static str)
        ensures
            m@ == "plan contains no tasks"@,
    {
        "plan contains no tasks"
    }
}

/// A plan together with the counters of its run.
#[derive(Debug)]
pub struct Coordinator {
    pub plan: ScenarioPlan,
    pub metrics: Metrics,
}

/// What the scenario's virtual users are made of.
#[derive(Debug)]
pub struct BridgeRequest {
    pub scenario_file: String,
    pub scenario_class: String,
    pub n_vusers: usize,
}

/// One request to dispatch.
#[derive(Debug)]
pub enum Job {
    /// Run the task on this virtual user.
    Bridge { vuser: usize, task: String },
    /// Send the request as the plan gives it.
    Static {
        task: String,
        method: HttpMethod,
        url: String,
        headers: StringMap<String>,
        body: Option<String>,
    },
}

impl Job {
    /// The request that goes out as the plan gives it; its body, if any, is
    /// JSON. A task of a virtual user makes its own requests.
    pub fn to_http(self) -> (r: Option<HttpRequest>)
        ensures
            self is Bridge ==> r is None,
            self matches Job::Static { method, url, headers, body, .. } ==> (r matches Some(q)
                && q.method == method && q.url == url && q.body == body
                && crate::http::is_header_list(q.headers@, headers, body, ContentType::Json)),
    {
        match self {
            Job::Bridge { .. } => None,
            Job::Static { method, url, headers, body, .. } => Some(
                make_request(method, url, &headers, body, ContentType::Json),
            ),
        }
    }
}

/// What a tick asks for.
#[derive(Debug)]
pub enum TickAction {
    /// The time is over.
    Stop,
    /// No virtual user is ready yet.
    Wait,
    /// Dispatch these requests.
    Fire { jobs: Vec<Job> },
}

/// The state of a run.
#[derive(Debug)]
pub struct Run {
    pub plan: ScenarioPlan,
    pub metrics: Metrics,
    /// Length of the run, in nanoseconds.
    pub total_ns: u128,
    pub max_concurrency: usize,
    pub budget: RequestBudget,
    /// Position in the order of tasks.
    pub cursor: usize,
    /// Number of the next dispatch to a virtual user.
    pub dispatch_idx: usize,
    /// Time of the last tick, in nanoseconds since the start.
    pub last_tick: u64,
    /// How many virtual users there are, when the scenario has any.
    pub bridge: Option<usize>,
    /// How many virtual users are ready.
    pub ready: usize,
    pub active_workers: u64,
    pub done: bool,
}

/// The weights of the run's tasks.
pub open spec fn run_weights(run: Run) -> Seq<nat> {
    crate::scheduler::weights(run.plan.tasks@)
}

/// The profile of the run's load.
pub open spec fn run_profile(run: Run) -> crate::scheduler::Profile {
    crate::scheduler::profile_of(run.plan)
}

/// The task of the pick that comes `i` picks after the next one.
pub open spec fn task_after(run: Run, i: int) -> crate::plan::TaskPlan {
    run.plan.tasks@[crate::scheduler::picked(run_weights(run), run.cursor + i)]
}

/// `job` is what the pick that comes `i` picks after the next one dispatches.
pub open spec fn is_job(run: Run, job: Job, i: int) -> bool {
    let t = task_after(run, i);
    match job {
        Job::Bridge { vuser, task } => {
            &&& run.bridge is Some
            &&& task@ == t.name@
            &&& vuser == (run.dispatch_idx + i) % (usize::MAX + 1) % (run.ready as int)
        },
        Job::Static { task, method, url, headers, body } => {
            &&& run.bridge is None
            &&& task@ == t.name@
            &&& method == t.method
            &&& url@ == crate::text::without_tail(run.plan.target_url@, '/') + t.url@
            &&& crate::map::text_map(headers@) == crate::map::text_map(t.headers@)
            &&& body == t.body_template
        },
    }
}

/// The requests that a tick at time `now` hands out.
pub open spec fn fired_at(run: Run, now: u64) -> int {
    (run.budget.rest + crate::budget::parts(
        crate::scheduler::rate_at(run_profile(run), now),
        run.budget.unit,
        (now - run.last_tick) as u64,
    )) / run.budget.scale()
}

/// What is left of the budget after a tick at time `now`.
pub open spec fn rest_at(run: Run, now: u64) -> int {
    (run.budget.rest + crate::budget::parts(
        crate::scheduler::rate_at(run_profile(run), now),
        run.budget.unit,
        (now - run.last_tick) as u64,
    )) % run.budget.scale()
}

/// The run with all but its schedule unchanged.
pub open spec fn same_but_schedule(a: Run, b: Run) -> bool {
    &&& a.plan == b.plan
    &&& a.metrics == b.metrics
    &&& a.total_ns == b.total_ns
    &&& a.max_concurrency == b.max_concurrency
    &&& a.bridge == b.bridge
    &&& a.ready == b.ready
    &&& a.active_workers == b.active_workers
    &&& a.done == b.done
    &&& a.budget.unit == b.budget.unit
    &&& a.budget.per_sec == b.budget.per_sec
}

/// The run with all but its counters unchanged.
pub open spec fn same_but_counters(a: Run, b: Run) -> bool {
    &&& a.plan == b.plan
    &&& a.total_ns == b.total_ns
    &&& a.max_concurrency == b.max_concurrency
    &&& a.budget == b.budget
    &&& a.cursor == b.cursor
    &&& a.dispatch_idx == b.dispatch_idx
    &&& a.last_tick == b.last_tick
    &&& a.bridge == b.bridge
    &&& a.ready == b.ready
    &&& a.done == b.done
}

/// The counters after the calls of one task: without any call the task failed.
pub open spec fn calls_counted(m: MetricsModel, task: Seq<char>, calls: Seq<CallResult>) -> MetricsModel {
    if calls.len() == 0 {
        crate::metrics::counted_task(m, task, 0, true)
    } else {
        each_counted(m, task, calls)
    }
}

/// The counters after each of the calls, in order.
pub open spec fn each_counted(m: MetricsModel, task: Seq<char>, calls: Seq<CallResult>) -> MetricsModel
    decreases calls.len(),
{
    if calls.len() == 0 {
        m
    } else {
        crate::metrics::counted_task(
            each_counted(m, task, calls.drop_last()),
            task,
            calls.last().elapsed_ms,
            !calls.last().success,
        )
    }
}

/// A counter of workers with one more.
pub open spec fn one_more(n: u64) -> u64 {
    crate::metrics::wrapped(n, 1)
}

/// A counter of workers with one less.
pub open spec fn one_less(n: u64) -> u64 {
    crate::metrics::wrapped(n, u64::MAX)
}

/// Whether the numbers of a plan can be run with: its length fits in 64 bits and
/// the weights of its tasks add up to a 32-bit number.
pub fn plan_fits(plan: &ScenarioPlan) -> (r: bool)
    ensures
        r == (crate::scheduler::total_secs(crate::scheduler::profile_of(*plan)) <= u64::MAX
            && crate::number::total(crate::scheduler::weights(plan.tasks@)) <= u32::MAX),
{
    let ramp = match plan.mode {
        Mode::Ramp => true,
        _ => false,
    };
    if ramp && plan.duration_secs.checked_add(plan.ramp_up_secs).is_none() {
        return false;
    }
    weights_fit(plan.tasks.as_slice())
}

impl Coordinator {
    /// A coordinator for `plan` with empty counters.
    pub fn new(plan: ScenarioPlan) -> (c: Coordinator)
        ensures
            c.plan == plan,
            c.metrics.wf(),
            c.metrics@ == crate::metrics::no_metrics(),
    {
        Coordinator { plan, metrics: Metrics::new() }
    }

    /// The run of the plan, before its first tick. A plan without tasks cannot
    /// run.
    pub fn start(self) -> (r: Result<Run, RunError>)
        requires
            self.metrics.wf(),
            crate::scheduler::total_secs(crate::scheduler::profile_of(self.plan)) <= u64::MAX,
            crate::number::total(crate::scheduler::weights(self.plan.tasks@)) <= u32::MAX,
        ensures
            r is Err <==> self.plan.tasks@.len() == 0,
            r matches Ok(run) ==> {
                &&& run.wf()
                &&& run.plan == self.plan
                &&& run.metrics == self.metrics
                &&& run.max_concurrency == concurrency(self.plan.rps)
                &&& run.budget.rest == 0
                &&& run.cursor == 0
                &&& run.dispatch_idx == 0
                &&& run.last_tick == 0
                &&& run.bridge is None
                &&& run.ready == 0
                &&& run.active_workers == 0
                &&& !run.done
            },
    {
        if self.plan.tasks.len() == 0 {
            return Err(RunError::NoTasks);
        }
        let p = profile(&self.plan);
        let total_ns: u128 = nanos_of(p.total_secs());
        let unit: u128 = p.rate_unit();
        let conc: usize = max_concurrency(self.plan.rps);
        let budget = RequestBudget::new(unit, NANOS_PER_SEC);
        Ok(
            Run {
                plan: self.plan,
                metrics: self.metrics,
                total_ns,
                max_concurrency: conc,
                budget,
                cursor: 0,
                dispatch_idx: 0,
                last_tick: 0,
                bridge: None,
                ready: 0,
                active_workers: 0,
                done: false,
            },
        )
    }
}

impl Run {
    /// The state is consistent with the plan.
    pub open spec fn wf(self) -> bool {
        &&& self.metrics.wf()
        &&& self.plan.tasks@.len() > 0
        &&& crate::number::total(run_weights(self)) <= u32::MAX
        &&& crate::scheduler::total_secs(run_profile(self)) <= u64::MAX
        &&& self.total_ns == crate::number::nanos(
            crate::scheduler::total_secs(run_profile(self)) as u64,
        )
        &&& self.budget.wf()
        &&& self.budget.unit == crate::scheduler::rate_unit(run_profile(self))
        &&& self.budget.per_sec == NANOS_PER_SEC
        &&& self.cursor < crate::scheduler::period(run_weights(self))
        &&& self.bridge matches Some(n) ==> self.ready <= n
    }

    /// What the virtual users of the scenario are made of, when the plan has
    /// both a scenario file and a class: five of them where it does not say.
    pub fn bridge_request(&self) -> (r: Option<BridgeRequest>)
        ensures
            r is Some <==> self.plan.scenario_file is Some && self.plan.scenario_class is Some,
            r matches Some(b) ==> {
                &&& b.scenario_file == self.plan.scenario_file->0
                &&& b.scenario_class == self.plan.scenario_class->0
                &&& b.n_vusers == match self.plan.n_vusers {
                    Some(n) => n as usize,
                    None => 5,
                }
            },
    {
        match (&self.plan.scenario_file, &self.plan.scenario_class) {
            (Some(file), Some(class)) => {
                let n: u64 = match self.plan.n_vusers {
                    Some(n) => n,
                    None => 5,
                };
                Some(
                    BridgeRequest {
                        scenario_file: file.clone(),
                        scenario_class: class.clone(),
                        n_vusers: n as usize,
                    },
                )
            },
            _ => None,
        }
    }

    /// Takes in the virtual users. Without any, requests go out as the plan
    /// gives them, from the first tick on.
    pub fn attach(&mut self, bridge: Option<usize>)
        requires
            old(self).wf(),
        ensures
            final(self).wf(),
            final(self).bridge == bridge,
            final(self).ready == if bridge is Some {
                0usize
            } else {
                1usize
            },
            final(self).plan == old(self).plan,
            final(self).metrics == old(self).metrics,
            final(self).total_ns == old(self).total_ns,
            final(self).max_concurrency == old(self).max_concurrency,
            final(self).budget == old(self).budget,
            final(self).cursor == old(self).cursor,
            final(self).dispatch_idx == old(self).dispatch_idx,
            final(self).last_tick == old(self).last_tick,
            final(self).active_workers == old(self).active_workers,
            final(self).done == old(self).done,
    {
        self.bridge = bridge;
        self.ready = if bridge.is_some() {
            0
        } else {
            1
        };
    }

    /// Another virtual user is ready.
    pub fn vuser_ready(&mut self)
        requires
            old(self).wf(),
            old(self).bridge is Some,
            old(self).ready < old(self).bridge->0,
        ensures
            final(self).wf(),
            final(self).ready == old(self).ready + 1,
            final(self).bridge == old(self).bridge,
            final(self).plan == old(self).plan,
            final(self).metrics == old(self).metrics,
            final(self).total_ns == old(self).total_ns,
            final(self).max_concurrency == old(self).max_concurrency,
            final(self).budget == old(self).budget,
            final(self).cursor == old(self).cursor,
            final(self).dispatch_idx == old(self).dispatch_idx,
            final(self).last_tick == old(self).last_tick,
            final(self).active_workers == old(self).active_workers,
            final(self).done == old(self).done,
    {
        self.ready = self.ready + 1;
    }

    /// The time of the first tick, in nanoseconds since the start.
    pub fn begin(&mut self, now: u64)
        requires
            old(self).wf(),
        ensures
            final(self).wf(),
            final(self).last_tick == now,
            same_but_schedule(*final(self), *old(self)),
            final(self).budget == old(self).budget,
            final(self).cursor == old(self).cursor,
            final(self).dispatch_idx == old(self).dispatch_idx,
    {
        self.last_tick = now;
    }

    /// After how many picks the order of tasks starts again.
    fn period(&self) -> (n: usize)
        requires
            self.wf(),
        ensures
            n == crate::scheduler::period(run_weights(*self)),
    {
        let ghost ws = run_weights(*self);
        let mut sum: u32 = 0;
        let mut i: usize = 0;
        proof {
            assert(ws.take(0) =~= Seq::<nat>::empty());
        }
        while i < self.plan.tasks.len()
            invariant
                ws == run_weights(*self),
                crate::number::total(ws) <= u32::MAX,
                i <= self.plan.tasks@.len(),
                sum == crate::number::total(ws.take(i as int)),
            decreases self.plan.tasks@.len() - i,
        {
            proof {
                crate::number::total_step(ws, i as int);
                crate::number::total_monotone(ws, i + 1);
            }
            sum = sum + self.plan.tasks[i].weight;
            i = i + 1;
        }
        proof {
            assert(ws.take(ws.len() as int) =~= ws);
        }
        if sum == 0 {
            self.plan.tasks.len()
        } else {
            sum as usize
        }
    }

    /// The request for the task at position `t`, as dispatch number `dispatch`.
    fn job(&self, t: usize, dispatch: usize) -> (job: Job)
        requires
            t < self.plan.tasks@.len(),
            self.bridge is Some ==> self.ready > 0,
        ensures
            match job {
                Job::Bridge { vuser, task } => {
                    &&& self.bridge is Some
                    &&& task@ == self.plan.tasks@[t as int].name@
                    &&& vuser == dispatch % self.ready
                },
                Job::Static { task, method, url, headers, body } => {
                    &&& self.bridge is None
                    &&& task@ == self.plan.tasks@[t as int].name@
                    &&& method == self.plan.tasks@[t as int].method
                    &&& url@ == crate::text::without_tail(self.plan.target_url@, '/')
                        + self.plan.tasks@[t as int].url@
                    &&& headers@ == self.plan.tasks@[t as int].headers@
                    &&& body == self.plan.tasks@[t as int].body_template
                },
            },
    {
        let task = &self.plan.tasks[t];
        if self.bridge.is_some() {
            Job::Bridge { vuser: dispatch % self.ready, task: task.name.clone() }
        } else {
            let mut url = trim_end_matches(self.plan.target_url.as_str(), '/');
            url.append(task.url.as_str());
            Job::Static {
                task: task.name.clone(),
                method: task.method,
                url,
                headers: copy_strings(&task.headers),
                body: copy_text(&task.body_template),
            }
        }
    }

    /// Whether a tick at time `now` can be counted: the clock has not gone back,
    /// and the requests that the time since the last tick brings fit in 64 bits.
    pub fn tick_fits(&self, now: u64) -> (r: bool)
        ensures
            r == (self.last_tick <= now && self.plan.rps * (now - self.last_tick) < u64::MAX
                * NANOS_PER_SEC),
    {
        if now < self.last_tick {
            return false;
        }
        let rps: u64 = self.plan.rps;
        let span: u64 = now - self.last_tick;
        proof {
            assert(0 <= rps * span <= 0xffff_ffff_ffff_ffff * 0xffff_ffff_ffff_ffff)
                by (nonlinear_arith)
                requires
                    0 <= rps <= 0xffff_ffff_ffff_ffff,
                    0 <= span <= 0xffff_ffff_ffff_ffff,
            ;
        }
        (rps as u128 * span as u128) < 0xffff_ffff_ffff_ffffu128 * 1_000_000_000u128
    }

    /// One tick of the scheduler at time `now`, in nanoseconds since the start.
    ///
    /// After the end of the run nothing more goes out. Before it, the rate
    /// accrues for the time since the last tick; the whole requests go out, or
    /// are dropped while no virtual user is ready. The tasks take turns by
    /// weight across all ticks, and so do the virtual users that are ready.
    pub fn tick(&mut self, now: u64) -> (action: TickAction)
        requires
            old(self).wf(),
            old(self).last_tick <= now,
            old(self).plan.rps * (now - old(self).last_tick) < u64::MAX * NANOS_PER_SEC,
        ensures
            final(self).wf(),
            same_but_schedule(*final(self), *old(self)),
            action is Stop <==> now >= old(self).total_ns,
            action is Stop ==> {
                &&& final(self).budget == old(self).budget
                &&& final(self).cursor == old(self).cursor
                &&& final(self).dispatch_idx == old(self).dispatch_idx
                &&& final(self).last_tick == old(self).last_tick
            },
            action !is Stop ==> {
                &&& final(self).last_tick == now
                &&& final(self).budget.rest == rest_at(*old(self), now)
            },
            action is Wait <==> now < old(self).total_ns && old(self).ready == 0,
            action is Wait ==> {
                &&& final(self).cursor == old(self).cursor
                &&& final(self).dispatch_idx == old(self).dispatch_idx
            },
            action matches TickAction::Fire { jobs } ==> {
                &&& jobs@.len() == fired_at(*old(self), now)
                &&& forall|i: int|
                    0 <= i < jobs@.len() ==> is_job(*old(self), #[trigger] jobs@[i], i)
                &&& final(self).cursor == (old(self).cursor + jobs@.len())
                    % crate::scheduler::period(run_weights(*old(self)))
                &&& final(self).dispatch_idx == if old(self).bridge is Some {
                    (old(self).dispatch_idx + jobs@.len()) % (usize::MAX + 1)
                } else {
                    old(self).dispatch_idx as int
                }
            },
    {
        if now as u128 >= self.total_ns {
            return TickAction::Stop;
        }
        let span: u64 = now - self.last_tick;
        self.last_tick = now;
        let (_, rate) = compute_phase_and_rps(now, &self.plan);
        proof {
            let p = run_profile(*self);
            crate::scheduler::rate_fits_unit(p, now);
            crate::scheduler::rate_is_bounded(p, now);
            let top = p.rps as int;
            let num = rate.num as int;
            let den = rate.den as int;
            assert(num * span < u64::MAX * (den * NANOS_PER_SEC)) by (nonlinear_arith)
                requires
                    0 <= num <= top * den,
                    den > 0,
                    span >= 0,
                    top * span < u64::MAX * NANOS_PER_SEC,
            ;
        }
        let fired: u64 = self.budget.accrue(rate, span);
        if self.ready == 0 {
            return TickAction::Wait;
        }
        let ghost start = *self;
        let ghost ws = run_weights(*self);
        let period: usize = self.period();
        let mut jobs: Vec<Job> = Vec::new();
        let mut k: u64 = 0;
        proof {
            vstd::arithmetic::div_mod::lemma_small_mod(
                self.cursor as nat,
                crate::scheduler::period(ws) as nat,
            );
            vstd::arithmetic::div_mod::lemma_small_mod(
                self.dispatch_idx as nat,
                (usize::MAX + 1) as nat,
            );
        }
        while k < fired
            invariant
                k <= fired,
                jobs@.len() == k,
                start.wf(),
                start.ready > 0,
                ws == run_weights(start),
                period == crate::scheduler::period(ws),
                same_but_schedule(*self, start),
                self.budget == start.budget,
                self.last_tick == start.last_tick,
                self.cursor < period,
                self.cursor == (start.cursor + k) % (period as int),
                self.dispatch_idx == if start.bridge is Some {
                    (start.dispatch_idx + k) % (usize::MAX + 1)
                } else {
                    start.dispatch_idx as int
                },
                forall|i: int| 0 <= i < k ==> is_job(start, #[trigger] jobs@[i], i),
            decreases fired - k,
        {
            let t: usize = match pick_index(self.plan.tasks.as_slice(), self.cursor) {
                Some(t) => t,
                None => 0,
            };
            proof {
                lemma_pick(ws, self.cursor, start.cursor + k);
            }
            let job = self.job(t, self.dispatch_idx);
            proof {
                assert(is_job(start, job, k as int));
                lemma_next(start.cursor + k, period as int);
                lemma_next(start.dispatch_idx + k, usize::MAX + 1);
            }
            jobs.push(job);
            self.cursor = if self.cursor == period - 1 {
                0
            } else {
                self.cursor + 1
            };
            if self.bridge.is_some() {
                self.dispatch_idx = self.dispatch_idx.wrapping_add(1);
            }
            k = k + 1;
        }
        TickAction::Fire { jobs }
    }

    /// A request is on its way.
    pub fn request_started(&mut self)
        requires
            old(self).wf(),
        ensures
            final(self).wf(),
            same_but_counters(*final(self), *old(self)),
            final(self).metrics == old(self).metrics,
            final(self).active_workers == one_more(old(self).active_workers),
    {
        self.active_workers = self.active_workers.wrapping_add(1);
    }

    /// A request that went out as the plan gives it has come back: with a
    /// status, or with none where it failed. A status below 400 is a success.
    pub fn static_done(&mut self, task: &str, latency_ms: u64, status: Option<u16>)
        requires
            old(self).wf(),
        ensures
            final(self).wf(),
            same_but_counters(*final(self), *old(self)),
            final(self).active_workers == one_less(old(self).active_workers),
            final(self).metrics@ == crate::metrics::counted_task(
                old(self).metrics@,
                task@,
                latency_ms,
                !(status matches Some(s) && s < 400),
            ),
    {
        let failed = match status {
            Some(s) => crate::http::is_error_status(s),
            None => true,
        };
        if failed {
            self.metrics.record_error_task(task, latency_ms);
        } else {
            self.metrics.record_success_task(task, latency_ms);
        }
        self.active_workers = self.active_workers.wrapping_sub(1);
    }

    /// A task of a virtual user has come back with its calls, or with none where
    /// it could not be run. Each call counts on its own; a task without any call
    /// counts as one failure.
    pub fn bridge_done(&mut self, task: &str, calls: Option<Vec<CallResult>>)
        requires
            old(self).wf(),
        ensures
            final(self).wf(),
            same_but_counters(*final(self), *old(self)),
            final(self).active_workers == one_less(old(self).active_workers),
            calls matches Some(cs) ==> final(self).metrics@ == calls_counted(
                old(self).metrics@,
                task@,
                cs@,
            ),
            calls is None ==> final(self).metrics@ == crate::metrics::counted_task(
                old(self).metrics@,
                task@,
                0,
                true,
            ),
    {
        match calls {
            Some(cs) => {
                if cs.len() == 0 {
                    self.metrics.record_error_task(task, 0);
                } else {
                    self.count_calls(task, &cs);
                }
            },
            None => {
                self.metrics.record_error_task(task, 0);
            },
        }
        self.active_workers = self.active_workers.wrapping_sub(1);
    }

    /// Counts each of the calls, in order.
    fn count_calls(&mut self, task: &str, calls: &Vec<CallResult>)
        requires
            old(self).wf(),
        ensures
            final(self).wf(),
            same_but_counters(*final(self), *old(self)),
            final(self).active_workers == old(self).active_workers,
            final(self).metrics@ == each_counted(old(self).metrics@, task@, calls@),
    {
        let ghost start = *self;
        let mut i: usize = 0;
        proof {
            assert(calls@.take(0) =~= Seq::<CallResult>::empty());
        }
        while i < calls.len()
            invariant
                i <= calls@.len(),
                self.wf(),
                same_but_counters(*self, start),
                self.active_workers == start.active_workers,
                self.metrics@ == each_counted(start.metrics@, task@, calls@.take(i as int)),
            decreases calls@.len() - i,
        {
            proof {
                assert(calls@.take(i + 1).drop_last() =~= calls@.take(i as int));
            }
            let call = &calls[i];
            if call.success {
                self.metrics.record_success_task(task, call.elapsed_ms);
            } else {
                self.metrics.record_error_task(task, call.elapsed_ms);
            }
            i = i + 1;
        }
        proof {
            assert(calls@.take(calls@.len() as int) =~= calls@);
        }
    }

    /// The report of the current window at time `now`; a new window begins. From
    /// the end of the run on, the phase is done and the target rate is zero.
    pub fn report(&mut self, now: u64, timestamp_ns: u64) -> (s: MetricsSnapshot)
        requires
            old(self).wf(),
        ensures
            final(self).wf(),
            same_but_counters(*final(self), *old(self)),
            final(self).active_workers == old(self).active_workers,
            final(self).metrics@ == (MetricsModel {
                window_requests: 0,
                window_errors: 0,
                ..old(self).metrics@
            }),
            s.timestamp_ns == timestamp_ns,
            s.elapsed_ns == now,
            s.current_rps == crate::metrics::whole(old(self).metrics.window_requests as int),
            now >= old(self).total_ns ==> s.phase == Phase::Done && s.target_rps
                == crate::metrics::whole(0),
            now < old(self).total_ns ==> s.phase == crate::scheduler::phase_at(
                run_profile(*old(self)),
                now,
            ) && s.target_rps == crate::scheduler::rate_at(run_profile(*old(self)), now),
            s.active_workers == old(self).active_workers,
            reports_counters(s, old(self).metrics@),
    {
        let (phase, target) = if now as u128 >= self.total_ns {
            (Phase::Done, Fraction::whole(0))
        } else {
            compute_phase_and_rps(now, &self.plan)
        };
        let (window, _) = self.metrics.drain_window();
        MetricsSnapshot {
            timestamp_ns,
            elapsed_ns: now,
            current_rps: Fraction::whole(window),
            target_rps: target,
            requests_total: self.metrics.requests_total,
            errors_total: self.metrics.errors_total,
            active_workers: self.active_workers,
            latency: self.metrics.histogram.snapshot(),
            phase,
            tasks: self.metrics.task_snapshots(),
        }
    }

    /// From now on the reporter ends with its next report.
    pub fn mark_done(&mut self)
        requires
            old(self).wf(),
        ensures
            final(self).wf(),
            final(self).done,
            same_but_counters(Run { done: old(self).done, ..*final(self) }, *old(self)),
            final(self).metrics == old(self).metrics,
            final(self).active_workers == old(self).active_workers,
    {
        self.done = true;
    }

    /// The final report: nothing is under way any more.
    pub fn final_report(&self, now: u64, timestamp_ns: u64) -> (s: MetricsSnapshot)
        requires
            self.wf(),
        ensures
            s.timestamp_ns == timestamp_ns,
            s.elapsed_ns == now,
            s.current_rps == crate::metrics::whole(0),
            s.target_rps == crate::metrics::whole(0),
            s.active_workers == 0,
            s.phase == Phase::Done,
            reports_counters(s, self.metrics@),
    {
        MetricsSnapshot {
            timestamp_ns,
            elapsed_ns: now,
            current_rps: Fraction::whole(0),
            target_rps: Fraction::whole(0),
            requests_total: self.metrics.requests_total,
            errors_total: self.metrics.errors_total,
            active_workers: 0,
            latency: self.metrics.histogram.snapshot(),
            phase: Phase::Done,
            tasks: self.metrics.task_snapshots(),
        }
    }
}

// ── Lemmas ────────────────────────────────────────────────────────────────────

proof fn lemma_next(x: int, m: int)
    requires
        m > 0,
        x >= 0,
    ensures
        (x + 1) % m == if x % m + 1 == m {
            0
        } else {
            x % m + 1
        },
        0 <= x % m < m,
{
    vstd::arithmetic::div_mod::lemma_fundamental_div_mod(x, m);
    let q = x / m;
    let r = x % m;
    if r + 1 == m {
        assert(m * (q + 1) == m * q + m) by (nonlinear_arith);
        assert((q + 1) * m == m * (q + 1)) by (nonlinear_arith);
        vstd::arithmetic::div_mod::lemma_fundamental_div_mod_converse(x + 1, m, q + 1, 0);
    } else {
        assert(q * m == m * q) by (nonlinear_arith);
        vstd::arithmetic::div_mod::lemma_fundamental_div_mod_converse(x + 1, m, q, r + 1);
    }
}

proof fn lemma_pick(ws: Seq<nat>, index: usize, x: int)
    requires
        ws.len() > 0,
        x >= 0,
        crate::number::total(ws) <= u32::MAX,
        index == x % crate::scheduler::period(ws),
        index < crate::scheduler::period(ws),
    ensures
        crate::scheduler::pick_of(ws, index) == crate::scheduler::picked(ws, x),
{
    vstd::arithmetic::div_mod::lemma_small_mod(
        index as nat,
        crate::scheduler::period(ws) as nat,
    );
    if crate::number::total(ws) > 0 {
        vstd::arithmetic::div_mod::lemma_small_mod(index as nat, 0x1_0000_0000);
    }
}

// ── Laws ──────────────────────────────────────────────────────────────────────

/// A tick sends tasks only to virtual users that are ready, so to none whose
/// `on_start` has not been called.
pub proof fn jobs_go_to_ready_vusers(run: Run, job: Job, i: int)
    requires
        run.wf(),
        run.ready > 0,
        i >= 0,
        is_job(run, job, i),
    ensures
        job matches Job::Bridge { vuser, .. } ==> vuser < run.ready && vuser < run.bridge->0,
{
    if let Job::Bridge { vuser, .. } = job {
        let x = (run.dispatch_idx + i) % (usize::MAX + 1);
        vstd::arithmetic::div_mod::lemma_mod_bound(x, run.ready as int);
    }
}

/// A task that a virtual user ran with at least one call adds as many requests
/// as it made calls.
pub proof fn every_call_is_counted(m: MetricsModel, task: Seq<char>, calls: Seq<CallResult>)
    requires
        m.requests_total + calls.len() <= u64::MAX,
    ensures
        each_counted(m, task, calls).requests_total == m.requests_total + calls.len(),
    decreases calls.len(),
{
    if calls.len() > 0 {
        let c = calls.last();
        every_call_is_counted(m, task, calls.drop_last());
        lemma_one_more_request(
            each_counted(m, task, calls.drop_last()),
            task,
            c.elapsed_ms,
            !c.success,
        );
    }
}

proof fn lemma_one_more_request(m: MetricsModel, task: Seq<char>, ms: u64, failed: bool)
    requires
        m.requests_total < u64::MAX,
    ensures
        crate::metrics::counted_task(m, task, ms, failed).requests_total == m.requests_total + 1,
{
}

/// The order of tasks goes on from tick to tick: a tick begins where the one
/// before it left off, so over time the tasks get their shares by weight.
pub proof fn order_of_tasks_goes_on(before: Run, after: Run, fired: nat, i: nat)
    requires
        before.wf(),
        after.plan == before.plan,
        after.cursor == (before.cursor + fired) % crate::scheduler::period(run_weights(before)),
    ensures
        task_after(after, i as int) == task_after(before, (fired + i) as int),
{
    let ws = run_weights(before);
    let m = crate::scheduler::period(ws);
    let x = before.cursor + fired;
    vstd::arithmetic::div_mod::lemma_add_mod_noop(x, i as int, m);
    vstd::arithmetic::div_mod::lemma_add_mod_noop(x % m, i as int, m);
    vstd::arithmetic::div_mod::lemma_mod_twice(x, m);
    assert((x % m + i) % m == (x + i) % m);
}

/// Of the next dispatches, as many as the weights add up to, each task gets
/// exactly as many as its weight says, wherever the order of tasks stands.
pub proof fn tasks_get_their_shares(run: Run, i: int)
    requires
        run.wf(),
        crate::number::total(run_weights(run)) > 0,
        0 <= i < run.plan.tasks@.len(),
    ensures
        crate::scheduler::picks(
            run_weights(run),
            run.cursor as int,
            crate::number::total(run_weights(run)),
            i,
        ) == run.plan.tasks@[i].weight,
{
    crate::scheduler::picks_follow_weights(run_weights(run), run.cursor as nat, i);
}

/// The run after a tick at time `now`, as far as its pace goes.
pub open spec fn paced(run: Run, now: u64) -> Run {
    Run {
        budget: RequestBudget { rest: rest_at(run, now) as u128, ..run.budget },
        last_tick: now,
        ..run
    }
}

/// The run after ticks at these times, as far as its pace goes.
pub open spec fn after_ticks(run: Run, times: Seq<u64>) -> Run
    decreases times.len(),
{
    if times.len() == 0 {
        run
    } else {
        paced(after_ticks(run, times.drop_last()), times.last())
    }
}

/// The requests that ticks at these times hand out, all together.
pub open spec fn fired_during(run: Run, times: Seq<u64>) -> int
    decreases times.len(),
{
    if times.len() == 0 {
        0
    } else {
        fired_during(run, times.drop_last()) + fired_at(
            after_ticks(run, times.drop_last()),
            times.last(),
        )
    }
}

/// The time of the tick before number `i`.
pub open spec fn time_before(run: Run, times: Seq<u64>, i: int) -> u64 {
    if i == 0 {
        run.last_tick
    } else {
        times[i - 1]
    }
}

/// The rate of each tick and the time since the one before it.
pub open spec fn pace(run: Run, times: Seq<u64>) -> Seq<(Fraction, u64)> {
    Seq::new(
        times.len(),
        |i: int|
            (
                crate::scheduler::rate_at(run_profile(run), times[i]),
                (times[i] - time_before(run, times, i)) as u64,
            ),
    )
}

/// Ticks come one after the other.
pub open spec fn in_order(run: Run, times: Seq<u64>) -> bool {
    forall|i: int|
        #![trigger times[i]]
        0 <= i < times.len() ==> time_before(run, times, i) <= times[i]
}

/// However the ticks fall, the run hands out the whole requests that its rate
/// has brought: none is lost between ticks and none comes too early, and less
/// than one request is left over.
pub proof fn run_keeps_pace(run: Run, times: Seq<u64>)
    requires
        run.wf(),
    ensures
        fired_during(run, times) == (run.budget.rest + crate::budget::due_over(
            run.budget,
            pace(run, times),
        )) / run.budget.scale(),
        after_ticks(run, times).budget.rest == (run.budget.rest + crate::budget::due_over(
            run.budget,
            pace(run, times),
        )) % run.budget.scale(),
        after_ticks(run, times).budget.rest < run.budget.scale(),
{
    lemma_pace(run, times);
    crate::budget::budget_keeps_pace(run.budget, pace(run, times));
}

proof fn lemma_pace(run: Run, times: Seq<u64>)
    requires
        run.wf(),
    ensures
        fired_during(run, times) == crate::budget::fired_over(run.budget, pace(run, times)),
        after_ticks(run, times).budget.rest == crate::budget::rest_after(
            run.budget,
            pace(run, times),
        ),
        after_ticks(run, times).budget.unit == run.budget.unit,
        after_ticks(run, times).budget.per_sec == run.budget.per_sec,
        after_ticks(run, times).plan == run.plan,
        after_ticks(run, times).last_tick == time_before(run, times, times.len() as int),
    decreases times.len(),
{
    if times.len() > 0 {
        let front = times.drop_last();
        lemma_pace(run, front);
        assert(pace(run, times).drop_last() =~= pace(run, front));
        crate::budget::budget_keeps_pace(run.budget, pace(run, times));
    }
}

/// A constant load is met exactly: `n` nanoseconds after a tick that left
/// nothing over, `rps * n` billionths of a request are due, and the whole ones
/// have gone out.
pub proof fn constant_load_is_met(run: Run, times: Seq<u64>)
    requires
        run.wf(),
        run.plan.mode == Mode::Constant,
        run.budget.rest == 0,
        in_order(run, times),
    ensures
        fired_during(run, times) == run.plan.rps * (time_before(run, times, times.len() as int)
            - run.last_tick) / 1_000_000_000,
{
    run_keeps_pace(run, times);
    lemma_constant_due(run, times);
}

proof fn lemma_constant_due(run: Run, times: Seq<u64>)
    requires
        run.wf(),
        run.plan.mode == Mode::Constant,
        in_order(run, times),
    ensures
        crate::budget::due_over(run.budget, pace(run, times)) == run.plan.rps * (time_before(
            run,
            times,
            times.len() as int,
        ) - run.last_tick),
    decreases times.len(),
{
    let rps = run.plan.rps as int;
    if times.len() > 0 {
        let front = times.drop_last();
        assert(pace(run, times).drop_last() =~= pace(run, front));
        assert(in_order(run, front)) by {
            assert forall|i: int| 0 <= i < front.len() implies time_before(run, front, i)
                <= #[trigger] front[i] by {
                assert(time_before(run, times, i) <= times[i]);
                assert(time_before(run, front, i) == time_before(run, times, i));
            }
        }
        lemma_constant_due(run, front);
        let last = times.last() as int;
        let before = time_before(run, times, times.len() - 1) as int;
        let start = run.last_tick as int;
        assert(times[times.len() - 1] == times.last());
        assert(before <= last);
        assert(time_before(run, front, front.len() as int) == before);
        assert(run.budget.unit == 1);
        assert(crate::budget::parts(
            pace(run, times).last().0,
            run.budget.unit,
            pace(run, times).last().1,
        ) == rps * (last - before)) by {
            assert(pace(run, times).last().0 == (Fraction { num: run.plan.rps as u128, den: 1 }));
            assert(1u128 / 1u128 == 1);
            assert(rps * 1 == rps);
        }
        assert(rps * (before - start) + rps * (last - before) == rps * (last - start))
            by (nonlinear_arith);
    } else {
        assert(rps * 0 == 0);
    }
}

/// As many requests may be in flight as the rate brings in a fifth of a second,
/// but never fewer than 50 nor more than 2000.
pub proof fn concurrency_follows_the_rate(rps: u64)
    ensures
        50 <= concurrency(rps) <= 2000,
        250 <= rps < 10_005 ==> 5 * concurrency(rps) <= rps < 5 * concurrency(rps) + 5,
        rps < 250 ==> concurrency(rps) == 50,
        rps >= 10_000 ==> concurrency(rps) == 2000,
{
}

/// A single virtual user, or a start without ramp-up, has no pauses.
pub proof fn sudden_starts_have_no_pauses(n: usize, ramp_up_secs: u64)
    requires
        n <= 1 || ramp_up_secs == 0,
    ensures
        stagger(n, ramp_up_secs) == 0,
{
}

/// The steps of a start: calls in the order of the virtual users, with one pause
/// between any two of them, or with none at all.
pub proof fn starts_alternate(n: nat, pause: u64, i: int)
    requires
        n <= usize::MAX,
        0 <= i < n,
    ensures
        pause == 0 ==> start_steps(n, pause).len() == n && start_steps(n, pause)[i]
            == StartStep::Call(i as usize),
        pause > 0 ==> {
            &&& start_steps(n, pause).len() == 2 * n - 1
            &&& start_steps(n, pause)[2 * i] == StartStep::Call(i as usize)
            &&& i + 1 < n ==> start_steps(n, pause)[2 * i + 1] == StartStep::Sleep(pause)
        },
    decreases n,
{
    let m = (n - 1) as nat;
    if i < m {
        starts_alternate(m, pause, i);
    } else if m > 0 {
        starts_alternate(m, pause, m - 1);
    } else {
        assert(start_steps(0, pause).len() == 0);
    }
}

/// The end of a run: the reporter is told, pending requests get 1.2 seconds, then
/// every virtual user is stopped in order and all threads end; the final report
/// comes last, and the reporter is waited for.
pub proof fn ends_come_in_order(bridge: Option<usize>, i: int)
    ensures
        ({
            let steps = end_steps(bridge);
            let n = steps.len() as int;
            let users: int = match bridge {
                Some(k) => k as int,
                None => 0,
            };
            &&& steps[0] == EndStep::MarkDone
            &&& steps[1] == EndStep::Sleep(1200)
            &&& bridge is Some ==> n == users + 5
            &&& bridge is None ==> n == 4
            &&& bridge is Some && 0 <= i < users ==> steps[2 + i] == EndStep::CallOnStop(i as usize)
            &&& bridge is Some ==> steps[n - 3] == EndStep::Shutdown
            &&& steps[n - 2] == EndStep::FinalReport
            &&& steps[n - 1] == EndStep::AwaitReporter
        }),
{
}

/// A request that is under way counts as one worker until it is back.
pub proof fn workers_come_and_go(n: u64)
    ensures
        one_less(one_more(n)) == n,
        n < u64::MAX ==> one_more(n) == n + 1,
        n > 0 ==> one_less(n) == n - 1,
{
}

/// A request that goes out as the plan gives it is that of the task whose slot of
/// the round it falls on: its method, its body and its headers, at its address
/// below the target without the slashes at the target's end.
pub proof fn static_jobs_are_their_tasks(
    run: Run,
    job: Job,
    i: int,
    t: int,
    base: Seq<char>,
    slashes: nat,
)
    requires
        run.wf(),
        i >= 0,
        is_job(run, job, i),
        job is Static,
        crate::number::total(run_weights(run)) > 0,
        0 <= t < run.plan.tasks@.len(),
        crate::number::total(run_weights(run).take(t)) <= (run.cursor + i)
            % (crate::number::total(run_weights(run)) as int)
            < crate::number::total(run_weights(run).take(t)) + run.plan.tasks@[t].weight,
        run.plan.target_url@ == base + Seq::new(slashes, |k: int| '/'),
        base.len() > 0 ==> base.last() != '/',
    ensures
        run.bridge is None,
        job matches Job::Static { task, method, url, headers, body } && {
            &&& task@ == run.plan.tasks@[t].name@
            &&& method == run.plan.tasks@[t].method
            &&& url@ == base + run.plan.tasks@[t].url@
            &&& body == run.plan.tasks@[t].body_template
            &&& headers@.dom() == run.plan.tasks@[t].headers@.dom()
            &&& forall|k: Seq<char>| #[trigger]
                headers@.contains_key(k) ==> headers@[k]@ == run.plan.tasks@[t].headers@[k]@
        },
{
    let ws = run_weights(run);
    crate::scheduler::picks_go_through_the_slots(ws, run.cursor + i, t);
    crate::text::tails_are_cut_off(base, '/', slashes);
    if let Job::Static { task, method, url, headers, body } = job {
        let own = run.plan.tasks@[t].headers@;
        let a = crate::map::text_map(headers@);
        let b = crate::map::text_map(own);
        assert(a.dom() =~= headers@.dom());
        assert(b.dom() =~= own.dom());
        assert forall|k: Seq<char>| #[trigger] headers@.contains_key(k) implies headers@[k]@
            == own[k]@ by {
            assert(a.contains_key(k));
            assert(b.contains_key(k));
            assert(a[k] == b[k]);
        }
    }
}

/// A task that goes to a virtual user is the one whose slot of the round it falls
/// on, and the virtual users that are ready take turns.
pub proof fn bridge_jobs_take_turns(run: Run, job: Job, i: int, t: int)
    requires
        run.wf(),
        i >= 0,
        run.ready > 0,
        is_job(run, job, i),
        job is Bridge,
        crate::number::total(run_weights(run)) > 0,
        0 <= t < run.plan.tasks@.len(),
        crate::number::total(run_weights(run).take(t)) <= (run.cursor + i)
            % (crate::number::total(run_weights(run)) as int)
            < crate::number::total(run_weights(run).take(t)) + run.plan.tasks@[t].weight,
        run.dispatch_idx + i <= usize::MAX,
    ensures
        run.bridge is Some,
        job matches Job::Bridge { vuser, task } && {
            &&& task@ == run.plan.tasks@[t].name@
            &&& vuser == (run.dispatch_idx + i) % (run.ready as int)
        },
{
    crate::scheduler::picks_go_through_the_slots(run_weights(run), run.cursor + i, t);
    vstd::arithmetic::div_mod::lemma_small_mod(
        (run.dispatch_idx + i) as nat,
        (usize::MAX + 1) as nat,
    );
}

/// What a tick hands out and keeps is what was kept before and what the rate of
/// that moment brings in the time since the last tick; measured in parts, of which
/// a request has `scale` and a second at one request a second brings as many.
pub proof fn ticks_lose_nothing(run: Run, now: u64)
    requires
        run.wf(),
        run.last_tick <= now,
    ensures
        ({
            let rate = crate::scheduler::rate_at(crate::scheduler::profile_of(run.plan), now);
            let scale = run.budget.unit * 1_000_000_000;
            let brought = fired_at(run, now) * scale + rest_at(run, now) - run.budget.rest;
            &&& brought * (rate.den * 1_000_000_000) == rate.num * (now - run.last_tick) * scale
            &&& 0 <= rest_at(run, now) < scale
        }),
{
    let p = run_profile(run);
    let rate = crate::scheduler::rate_at(p, now);
    let span = (now - run.last_tick) as u64;
    crate::scheduler::rate_fits_unit(p, now);
    crate::budget::accrual_follows_the_rate(run.budget, rate, span);
    let scale = run.budget.scale();
    let x = run.budget.rest + crate::budget::parts(rate, run.budget.unit, span);
    vstd::arithmetic::div_mod::lemma_fundamental_div_mod(x, scale);
    vstd::arithmetic::div_mod::lemma_mod_bound(x, scale);
    assert(scale * (x / scale) == (x / scale) * scale) by (nonlinear_arith);
}

/// A run takes as long as its plan says: the duration, and the ramp-up on top of it
/// where there is one.
pub proof fn runs_last_as_planned(run: Run)
    requires
        run.wf(),
    ensures
        run.plan.mode == Mode::Ramp ==> run.total_ns == (run.plan.duration_secs
            + run.plan.ramp_up_secs) * 1_000_000_000,
        run.plan.mode != Mode::Ramp ==> run.total_ns == run.plan.duration_secs * 1_000_000_000,
        run.plan.tasks@.len() > 0,
{
}

/// Counting touches the counters and the workers, and nothing else of a run.
pub proof fn counting_leaves_the_schedule(a: Run, b: Run)
    requires
        same_but_counters(a, b),
    ensures
        a.plan == b.plan,
        a.total_ns == b.total_ns,
        a.max_concurrency == b.max_concurrency,
        a.budget == b.budget,
        a.cursor == b.cursor,
        a.dispatch_idx == b.dispatch_idx,
        a.last_tick == b.last_tick,
        a.bridge == b.bridge,
        a.ready == b.ready,
        a.done == b.done,
{
}

/// A tick touches the schedule, and nothing else of a run.
pub proof fn ticks_leave_the_counters(a: Run, b: Run)
    requires
        same_but_schedule(a, b),
    ensures
        a.plan == b.plan,
        a.metrics == b.metrics,
        a.total_ns == b.total_ns,
        a.max_concurrency == b.max_concurrency,
        a.bridge == b.bridge,
        a.ready == b.ready,
        a.active_workers == b.active_workers,
        a.done == b.done,
        a.budget.unit == b.budget.unit,
        a.budget.per_sec == b.budget.per_sec,
{
}

} // verus!

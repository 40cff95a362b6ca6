//! A test run across agents: registration, shards of the plan, and the loop
//! that follows the agents until they are done.
use crate::decimal::to_decimal;
use crate::map::StringMap;
use crate::plan::copy_configs;
use crate::plan::copy_tasks;
use crate::plan::copy_text;
use crate::plan::Mode;
use crate::plan::PlanModel;
use crate::plan::ScenarioPlan;
use crate::scheduler::Profile;
use crate::text::same_text;
use crate::text::starts_with;
use crate::wire::try_aggregate;
use crate::wire::AgentMetricsMsg;
use crate::wire::AggregatedSnapshot;
use crate::wire::ShardMsg;
use vstd::prelude::*;

verus! {

// ── Shards ────────────────────────────────────────────────────────────────────

/// The part of `amount` that falls to number `idx` of `n`: equal parts, and the
/// last takes the rest.
pub open spec fn part(amount: u64, n: usize, idx: usize) -> int {
    if idx == n - 1 {
        amount - amount as int / n as int * (n - 1)
    } else {
        amount as int / n as int
    }
}

/// The virtual users of a shard: at least one.
pub open spec fn vuser_part(n_vusers: Option<u64>, n: usize, idx: usize) -> Option<u64> {
    match n_vusers {
        Some(v) => Some(
            if part(v, n, idx) < 1 {
                1
            } else {
                part(v, n, idx) as u64
            },
        ),
        None => None,
    }
}

/// The shard `idx` of `n` of a plan.
pub open spec fn shard_of(plan: PlanModel, n: usize, idx: usize) -> PlanModel {
    PlanModel {
        rps: part(plan.rps, n, idx) as u64,
        n_vusers: vuser_part(plan.n_vusers, n, idx),
        ..plan
    }
}

proof fn lemma_part_range(amount: u64, n: usize, idx: usize)
    requires
        n > 0,
    ensures
        0 <= amount as int / n as int * (n - 1) <= amount,
        0 <= part(amount, n, idx) <= amount,
{
    let a = amount as int;
    let d = n as int;
    let q = a / d;
    vstd::arithmetic::div_mod::lemma_fundamental_div_mod(a, d);
    assert(0 <= q && q * (d - 1) <= a && 0 <= q * (d - 1) && q <= a) by (nonlinear_arith)
        requires
            a == d * q + a % d,
            0 <= a % d,
            a >= 0,
            d >= 1,
            q == a / d,
    ;
}

/// The part of `amount` that falls to number `idx` of `n`.
pub fn part_of(amount: u64, n: usize, idx: usize) -> (r: u64)
    requires
        n > 0,
    ensures
        r == part(amount, n, idx),
{
    proof {
        lemma_part_range(amount, n, idx);
    }
    let base: u64 = amount / n as u64;
    if idx == n - 1 {
        amount - base * (n as u64 - 1)
    } else {
        base
    }
}

/// The shard `idx` of `n` of a plan: its part of the rate and of the virtual
/// users, and all else as in the plan.
pub fn shard(plan: &ScenarioPlan, n: usize, idx: usize) -> (r: ScenarioPlan)
    requires
        n > 0,
    ensures
        r@ == shard_of(plan@, n, idx),
{
    let rps: u64 = part_of(plan.rps, n, idx);
    let n_vusers = match plan.n_vusers {
        Some(v) => {
            let p: u64 = part_of(v, n, idx);
            Some(
                if p < 1 {
                    1u64
                } else {
                    p
                },
            )
        },
        None => None,
    };
    ScenarioPlan {
        name: plan.name.clone(),
        rps,
        duration_secs: plan.duration_secs,
        ramp_up_secs: plan.ramp_up_secs,
        mode: plan.mode,
        target_url: plan.target_url.clone(),
        tasks: copy_tasks(&plan.tasks),
        scenario_file: copy_text(&plan.scenario_file),
        scenario_class: copy_text(&plan.scenario_class),
        n_vusers,
        vuser_configs: copy_configs(&plan.vuser_configs),
        steps: plan.steps,
    }
}

/// The sum of the first `k` parts.
pub open spec fn first_parts(amount: u64, n: usize, k: nat) -> int
    decreases k,
{
    if k == 0 {
        0
    } else {
        first_parts(amount, n, (k - 1) as nat) + part(amount, n, (k - 1) as usize)
    }
}

proof fn lemma_first_parts(amount: u64, n: usize, k: nat)
    requires
        n > 0,
        k <= n - 1,
    ensures
        first_parts(amount, n, k) == amount as int / n as int * k,
    decreases k,
{
    let q = amount as int / n as int;
    if k > 0 {
        lemma_first_parts(amount, n, (k - 1) as nat);
        assert(q * k == q * (k - 1) + q) by (nonlinear_arith);
    } else {
        assert(q * 0 == 0);
    }
}

/// The shards together carry exactly the load of the plan.
pub proof fn shards_add_up(amount: u64, n: usize)
    requires
        n > 0,
    ensures
        first_parts(amount, n, n as nat) == amount,
{
    lemma_first_parts(amount, n, (n - 1) as nat);
}

/// Each shard carries its equal part of the load; only the last carries more,
/// and by less than one for each shard.
pub proof fn shards_are_even(amount: u64, n: usize, idx: usize)
    requires
        n > 0,
        idx < n,
    ensures
        amount as int / n as int <= part(amount, n, idx) < amount as int / n as int + n,
        idx < n - 1 ==> part(amount, n, idx) == amount as int / n as int,
{
    let a = amount as int;
    let d = n as int;
    vstd::arithmetic::div_mod::lemma_fundamental_div_mod(a, d);
    let q = a / d;
    assert(a - q * (d - 1) == q + a % d) by (nonlinear_arith)
        requires
            a == d * q + a % d,
    ;
}

/// The profile of shard `idx` of `n`.
pub open spec fn shard_profile(p: Profile, n: usize, idx: usize) -> Profile {
    Profile { rps: part(p.rps, n, idx) as u64, ..p }
}

/// The numerators of the rates of the first `k` shards, added up.
pub open spec fn first_rates(p: Profile, n: usize, elapsed: u64, k: nat) -> int
    decreases k,
{
    if k == 0 {
        0
    } else {
        first_rates(p, n, elapsed, (k - 1) as nat) + crate::scheduler::rate_at(
            shard_profile(p, n, (k - 1) as usize),
            elapsed,
        ).num
    }
}

/// At every moment the shards together ask for the rate of the plan, in every
/// mode, and they take as long as it does.
pub proof fn shards_follow_the_profile(p: Profile, n: usize, elapsed: u64, idx: usize)
    requires
        n > 0,
    ensures
        first_rates(p, n, elapsed, n as nat) == crate::scheduler::rate_at(p, elapsed).num,
        crate::scheduler::rate_at(shard_profile(p, n, idx), elapsed).den
            == crate::scheduler::rate_at(p, elapsed).den,
        crate::scheduler::phase_at(shard_profile(p, n, idx), elapsed) == crate::scheduler::phase_at(
            p,
            elapsed,
        ),
        crate::scheduler::total_secs(shard_profile(p, n, idx)) == crate::scheduler::total_secs(p),
{
    lemma_first_rates(p, n, elapsed, n as nat);
    shards_add_up(p.rps, n);
    lemma_rate_factor(p, elapsed);
}

/// What a rate is for each request a second of the full rate, before it is
/// divided.
spec fn rate_factor(p: Profile, elapsed: u64) -> int {
    match p.mode {
        Mode::Ramp => if elapsed < crate::number::nanos(p.ramp_up_secs) {
            elapsed as int
        } else {
            1
        },
        Mode::Step => crate::scheduler::step_at(p, elapsed) + 1,
        _ => 1,
    }
}

proof fn lemma_rate_factor(p: Profile, elapsed: u64)
    ensures
        crate::scheduler::rate_at(p, elapsed).num == p.rps * rate_factor(p, elapsed),
{
    let rps = p.rps as int;
    let f = rate_factor(p, elapsed);
    assert(p.mode == Mode::Step ==> 0 <= f <= 0xffff_ffff_ffff_ffff) by {
        crate::scheduler::step_in_range(p, elapsed);
    }
    assert(0 <= rps * f <= 0xffff_ffff_ffff_ffff * 0xffff_ffff_ffff_ffff) by (nonlinear_arith)
        requires
            0 <= rps <= 0xffff_ffff_ffff_ffff,
            0 <= f <= 0xffff_ffff_ffff_ffff,
    ;
    assert(rps * 1 == rps);
}

proof fn lemma_first_rates(p: Profile, n: usize, elapsed: u64, k: nat)
    requires
        n > 0,
        k <= n,
    ensures
        first_rates(p, n, elapsed, k) == first_parts(p.rps, n, k) * rate_factor(p, elapsed),
    decreases k,
{
    let f = rate_factor(p, elapsed);
    if k > 0 {
        let m = (k - 1) as nat;
        lemma_first_rates(p, n, elapsed, m);
        lemma_part_range(p.rps, n, m as usize);
        let q = shard_profile(p, n, m as usize);
        lemma_rate_factor(q, elapsed);
        assert(rate_factor(q, elapsed) == f);
        let a = first_parts(p.rps, n, m);
        let b = part(p.rps, n, m as usize);
        assert((a + b) * f == a * f + b * f) by (nonlinear_arith);
    } else {
        assert(0 * f == 0);
    }
}

// ── Registration ──────────────────────────────────────────────────────────────

/// How long agents may take to register, in seconds: local ones start at once,
/// remote ones may take their time.
pub fn registration_timeout_secs(local: bool) -> (s: u64)
    ensures
        s == if local {
            30u64
        } else {
            300u64
        },
{
    if local {
        30
    } else {
        300
    }
}

/// The agents that have registered, each once, in the order of their first
/// announcements.
#[derive(Debug)]
pub struct Registration {
    pub wanted: usize,
    pub registered: Vec<String>,
}

/// The known agents once `id` has announced itself: an agent that announces
/// itself again is still the same agent.
pub open spec fn with_agent(known: Seq<Seq<char>>, id: Seq<char>) -> Seq<Seq<char>> {
    if known.contains(id) {
        known
    } else {
        known.push(id)
    }
}

impl Registration {
    /// No agent counts twice.
    pub open spec fn wf(self) -> bool {
        crate::text::texts(self.registered@).no_duplicates()
    }

    /// Nobody has registered yet.
    pub fn new(wanted: usize) -> (r: Registration)
        ensures
            r.wf(),
            r.wanted == wanted,
            r.registered@.len() == 0,
    {
        Registration { wanted, registered: Vec::new() }
    }

    /// Whether enough agents have registered.
    pub fn is_complete(&self) -> (r: bool)
        ensures
            r == (self.registered@.len() >= self.wanted),
            self.wf() ==> r == (crate::text::texts(self.registered@).to_set().len()
                >= self.wanted),
    {
        proof {
            let ids = crate::text::texts(self.registered@);
            if self.wf() {
                ids.unique_seq_to_set();
            }
        }
        self.registered.len() >= self.wanted
    }

    /// Whether an agent has registered.
    fn knows(&self, agent_id: &str) -> (r: bool)
        ensures
            r == crate::text::texts(self.registered@).contains(agent_id@),
    {
        let ghost ids = crate::text::texts(self.registered@);
        let mut i: usize = 0;
        while i < self.registered.len()
            invariant
                ids == crate::text::texts(self.registered@),
                i <= ids.len(),
                forall|j: int| 0 <= j < i ==> #[trigger] ids[j] != agent_id@,
            decreases ids.len() - i,
        {
            proof {
                assert(ids[i as int] == self.registered@[i as int]@);
            }
            if same_text(self.registered[i].as_str(), agent_id) {
                return true;
            }
            i = i + 1;
        }
        false
    }

    /// An agent has announced itself; it counts the first time. Says whether
    /// the agents are enough now.
    pub fn add_agent(&mut self, agent_id: String) -> (complete: bool)
        ensures
            old(self).wf() ==> final(self).wf(),
            final(self).wanted == old(self).wanted,
            final(self).registered@ == if crate::text::texts(old(self).registered@).contains(
                agent_id@,
            ) {
                old(self).registered@
            } else {
                old(self).registered@.push(agent_id)
            },
            crate::text::texts(final(self).registered@) == with_agent(
                crate::text::texts(old(self).registered@),
                agent_id@,
            ),
            complete == (final(self).registered@.len() >= final(self).wanted),
    {
        let ghost before = crate::text::texts(self.registered@);
        let ghost id = agent_id@;
        if !self.knows(agent_id.as_str()) {
            self.registered.push(agent_id);
            proof {
                assert(crate::text::texts(self.registered@) =~= before.push(id));
            }
        }
        self.registered.len() >= self.wanted
    }

    /// What is said when the agents of an external server did not register in
    /// time.
    pub fn timeout_message(&self, nats_url: &str) -> (m: String)
        ensures
            m@ == "Timed out waiting for agents ("@ + crate::decimal::decimal(
                self.registered@.len(),
            ) + "/"@ + crate::decimal::decimal(self.wanted as nat)
                + " registered). Make sure agents are running and can reach "@ + nats_url@ + "."@,
    {
        let mut m = "Timed out waiting for agents (".to_string();
        let have = to_decimal(self.registered.len() as u128);
        let want = to_decimal(self.wanted as u128);
        m.append(have.as_str());
        m.append("/");
        m.append(want.as_str());
        m.append(" registered). Make sure agents are running and can reach ");
        m.append(nats_url);
        m.append(".");
        m
    }
}

/// The agents that are known after these announcements, one after the other.
pub open spec fn announced(ids: Seq<Seq<char>>) -> Seq<Seq<char>>
    decreases ids.len(),
{
    if ids.len() == 0 {
        seq![]
    } else {
        with_agent(announced(ids.drop_last()), ids.last())
    }
}

/// Registration counts distinct agents, however often each of them announces
/// itself: after any announcements every agent among them is known once, and
/// nobody else is.
pub proof fn registration_counts_distinct_agents(ids: Seq<Seq<char>>)
    ensures
        announced(ids).no_duplicates(),
        announced(ids).to_set() == ids.to_set(),
        announced(ids).len() == ids.to_set().len(),
    decreases ids.len(),
{
    let known = announced(ids);
    if ids.len() > 0 {
        let front = ids.drop_last();
        let id = ids.last();
        registration_counts_distinct_agents(front);
        assert(ids =~= front.push(id));
        assert forall|x: Seq<char>| known.contains(x) <==> ids.contains(x) by {
            assert(announced(front).to_set().contains(x) <==> front.to_set().contains(x));
            assert(front.contains(x) || x == id <==> ids.contains(x)) by {
                if front.contains(x) {
                    assert(ids[front.index_of(x)] == x);
                }
                if x == id {
                    assert(ids[ids.len() - 1] == x);
                }
            }
            if announced(front).contains(x) {
                assert(known[announced(front).index_of(x)] == x);
            }
            if x == id && !announced(front).contains(id) {
                assert(known[known.len() - 1] == x);
            }
        }
    }
    assert(known.to_set() =~= ids.to_set());
    known.unique_seq_to_set();
}

/// The name of a local agent.
pub fn local_agent_id(i: usize) -> (id: String)
    ensures
        id@ == "agent-"@ + crate::decimal::decimal(i as nat),
{
    let mut id = "agent-".to_string();
    let number = to_decimal(i as u128);
    id.append(number.as_str());
    id
}

/// The wall-clock time at which all agents start: two seconds from now.
pub fn start_time(now_ms: u64) -> (t: u64)
    requires
        now_ms + 2000 <= u64::MAX,
    ensures
        t == now_ms + 2000,
{
    now_ms + 2000
}

/// The messages carry the shards to the agents: one for each, in order, all
/// with the same start.
pub open spec fn are_shard_messages(
    msgs: Seq<ShardMsg>,
    plan: PlanModel,
    n: usize,
    agents: Seq<String>,
    start_at: u64,
) -> bool {
    &&& msgs.len() == agents.len()
    &&& forall|i: int|
        0 <= i < msgs.len() ==> {
            &&& (#[trigger] msgs[i]).agent_id == agents[i]
            &&& msgs[i].plan@ == shard_of(plan, n, i as usize)
            &&& msgs[i].start_at_unix_ms == start_at
        }
}

/// The messages that carry the shards to the agents.
pub fn shard_messages(
    plan: &ScenarioPlan,
    n: usize,
    agents: &Vec<String>,
    start_at: u64,
) -> (msgs: Vec<ShardMsg>)
    requires
        n > 0,
    ensures
        are_shard_messages(msgs@, plan@, n, agents@, start_at),
{
    let mut msgs: Vec<ShardMsg> = Vec::new();
    let mut i: usize = 0;
    while i < agents.len()
        invariant
            n > 0,
            i <= agents@.len(),
            msgs@.len() == i,
            forall|j: int|
                0 <= j < i ==> {
                    &&& (#[trigger] msgs@[j]).agent_id == agents@[j]
                    &&& msgs@[j].plan@ == shard_of(plan@, n, j as usize)
                    &&& msgs@[j].start_at_unix_ms == start_at
                },
        decreases agents@.len() - i,
    {
        msgs.push(
            ShardMsg {
                agent_id: agents[i].clone(),
                plan: shard(plan, n, i),
                start_at_unix_ms: start_at,
            },
        );
        i = i + 1;
    }
    msgs
}

/// The rates that the messages carry.
pub open spec fn message_rates(msgs: Seq<ShardMsg>) -> Seq<nat> {
    msgs.map_values(|m: ShardMsg| m.plan.rps as nat)
}

/// Once as many agents as are wanted have registered, the messages to them
/// carry exactly the rate of the plan, one to each agent, and all agents start
/// together.
pub proof fn messages_carry_the_load(
    msgs: Seq<ShardMsg>,
    plan: PlanModel,
    n: usize,
    agents: Seq<String>,
    start_at: u64,
)
    requires
        n > 0,
        agents.len() == n,
        crate::text::texts(agents).no_duplicates(),
        are_shard_messages(msgs, plan, n, agents, start_at),
    ensures
        crate::number::total(message_rates(msgs)) == plan.rps,
        forall|i: int, j: int|
            0 <= i < j < msgs.len() ==> (#[trigger] msgs[i]).agent_id@ != (
            #[trigger] msgs[j]).agent_id@,
        forall|i: int, j: int|
            0 <= i < msgs.len() && 0 <= j < msgs.len() ==> (#[trigger] msgs[i]).start_at_unix_ms == (
            #[trigger] msgs[j]).start_at_unix_ms,
{
    lemma_message_rates(msgs, plan, n, n as nat);
    assert forall|i: int, j: int| 0 <= i < j < msgs.len() implies (#[trigger] msgs[i]).agent_id@ != (
    #[trigger] msgs[j]).agent_id@ by {
        assert(crate::text::texts(agents)[i] == msgs[i].agent_id@);
        assert(crate::text::texts(agents)[j] == msgs[j].agent_id@);
    }
    assert(message_rates(msgs).take(n as int) =~= message_rates(msgs));
    shards_add_up(plan.rps, n);
}

proof fn lemma_message_rates(msgs: Seq<ShardMsg>, plan: PlanModel, n: usize, k: nat)
    requires
        n > 0,
        k <= n,
        msgs.len() == n,
        forall|i: int|
            0 <= i < msgs.len() ==> (#[trigger] msgs[i]).plan@ == shard_of(plan, n, i as usize),
    ensures
        crate::number::total(message_rates(msgs).take(k as int)) == first_parts(plan.rps, n, k),
    decreases k,
{
    let rates = message_rates(msgs);
    if k == 0 {
        assert(rates.take(0) =~= Seq::<nat>::empty());
    } else {
        lemma_message_rates(msgs, plan, n, (k - 1) as nat);
        crate::number::total_step(rates, k - 1);
        let m = msgs[k - 1];
        assert(m.plan@ == shard_of(plan, n, (k - 1) as usize));
        assert(m.plan@.rps == m.plan.rps);
        lemma_part_range(plan.rps, n, (k - 1) as usize);
    }
}

// ── Following the agents ──────────────────────────────────────────────────────

/// After how many seconds of silence an agent counts as lost.
pub const AGENT_TIMEOUT_SECS: u64 = 15;

/// The whole seconds between two times in nanoseconds.
pub open spec fn silence(now: u64, seen: u64) -> int {
    if now > seen {
        (now - seen) / 1_000_000_000
    } else {
        0
    }
}

/// What is known of the agents.
#[verifier::ext_equal]
pub struct FleetModel {
    /// The agents that registered: the test waits for these.
    pub agents: Seq<Seq<char>>,
    /// The last report of each agent.
    pub latest: Seq<AgentMetricsMsg>,
    /// When each agent was last heard of.
    pub last_seen: Map<Seq<char>, u64>,
    /// The agents that count as lost.
    pub timed_out: Set<Seq<char>>,
    /// The agents that are done.
    pub done: Set<Seq<char>>,
}

/// The position of the report of `agent_id`, or the number of reports.
pub open spec fn report_at(latest: Seq<AgentMetricsMsg>, agent_id: Seq<char>) -> int
    decreases latest.len(),
{
    if latest.len() == 0 {
        0
    } else if latest[0].agent_id@ == agent_id {
        0
    } else {
        1 + report_at(latest.drop_first(), agent_id)
    }
}

/// The reports with `msg` in place of the earlier one of the same agent.
pub open spec fn replaced(latest: Seq<AgentMetricsMsg>, msg: AgentMetricsMsg) -> Seq<
    AgentMetricsMsg,
> {
    let i = report_at(latest, msg.agent_id@);
    if i < latest.len() {
        latest.update(i, msg)
    } else {
        latest.push(msg)
    }
}

/// The fleet before any report: every registered agent has just been seen.
pub open spec fn fleet_start(agents: Seq<String>, now: u64) -> FleetModel {
    FleetModel {
        agents: crate::text::texts(agents),
        latest: seq![],
        last_seen: Map::new(
            |id: Seq<char>| crate::text::texts(agents).contains(id),
            |id: Seq<char>| now,
        ),
        timed_out: Set::empty(),
        done: Set::empty(),
    }
}

/// The fleet after a report. A lost agent that reports is back.
pub open spec fn after_report(f: FleetModel, msg: AgentMetricsMsg, now: u64) -> FleetModel {
    FleetModel {
        agents: f.agents,
        latest: replaced(f.latest, msg),
        last_seen: f.last_seen.insert(msg.agent_id@, now),
        timed_out: f.timed_out.remove(msg.agent_id@),
        done: if msg.phase@ == "done"@ {
            f.done.insert(msg.agent_id@)
        } else {
            f.done
        },
    }
}

/// The fleet after a look at the clock: agents that were silent for too long
/// count as lost.
pub open spec fn after_look(f: FleetModel, now: u64) -> FleetModel {
    FleetModel {
        timed_out: f.timed_out.union(
            Set::new(
                |id: Seq<char>|
                    f.last_seen.contains_key(id) && silence(now, f.last_seen[id])
                        >= AGENT_TIMEOUT_SECS,
            ),
        ),
        ..f
    }
}

/// Nothing is left to wait for: every registered agent is done or lost. An agent
/// that reports without having registered is not waited for.
pub open spec fn is_over(f: FleetModel) -> bool {
    &&& f.agents.len() > 0
    &&& forall|i: int|
        0 <= i < f.agents.len() ==> f.done.contains(#[trigger] f.agents[i])
            || f.timed_out.contains(f.agents[i])
}

/// What is known of the agents.
#[derive(Debug)]
pub struct Fleet {
    pub agents: Vec<String>,
    pub latest: Vec<AgentMetricsMsg>,
    pub last_seen: StringMap<u64>,
    pub timed_out: StringMap<()>,
    pub done: StringMap<()>,
}

/// A look at the fleet: the metrics of all agents together, where their sums fit
/// in 64 bits, and whether the test is over.
#[derive(Debug)]
pub struct FleetReport {
    pub aggregate: Option<AggregatedSnapshot>,
    pub over: bool,
}

/// The report holds the metrics of all agents together.
pub open spec fn reports_fleet(
    r: Option<AggregatedSnapshot>,
    latest: Seq<AgentMetricsMsg>,
    timestamp_ns: u64,
) -> bool {
    &&& r is Some <==> crate::wire::agents_fit(latest)
    &&& r matches Some(a) ==> a.timestamp_ns == timestamp_ns && crate::wire::is_aggregate(a, latest)
}

impl View for Fleet {
    type V = FleetModel;

    open spec fn view(&self) -> FleetModel {
        FleetModel {
            agents: crate::text::texts(self.agents@),
            latest: self.latest@,
            last_seen: self.last_seen@,
            timed_out: self.timed_out@.dom(),
            done: self.done@.dom(),
        }
    }
}

impl Fleet {
    /// The fleet before any report. Every registered agent counts as seen, so
    /// that one that never reports is found out too.
    pub fn new(agents: &Vec<String>, now: u64) -> (f: Fleet)
        ensures
            f@ == fleet_start(agents@, now),
    {
        let mut last_seen: StringMap<u64> = StringMap::new();
        let mut i: usize = 0;
        let ghost ids = crate::text::texts(agents@);
        while i < agents.len()
            invariant
                ids == crate::text::texts(agents@),
                i <= agents@.len(),
                forall|id: Seq<char>| #[trigger]
                    last_seen@.contains_key(id) <==> exists|j: int| 0 <= j < i && ids[j] == id,
                forall|id: Seq<char>| #[trigger]
                    last_seen@.contains_key(id) ==> last_seen@[id] == now,
            decreases agents@.len() - i,
        {
            let ghost before = last_seen@;
            last_seen.insert(agents[i].clone(), now);
            proof {
                assert forall|id: Seq<char>| #[trigger]
                    last_seen@.contains_key(id) <==> exists|j: int| 0 <= j < i + 1 && ids[j]
                        == id by {
                    assert(ids[i as int] == agents@[i as int]@);
                    assert(before.contains_key(id) <==> exists|j: int| 0 <= j < i && ids[j] == id);
                }
            }
            i = i + 1;
        }
        let f = Fleet {
            agents: copy_ids(agents),
            latest: Vec::new(),
            last_seen,
            timed_out: StringMap::new(),
            done: StringMap::new(),
        };
        proof {
            let expect = fleet_start(agents@, now);
            assert(f@.last_seen =~= expect.last_seen);
            assert(f@.timed_out =~= expect.timed_out);
            assert(f@.done =~= expect.done);
            assert(f@.latest =~= expect.latest);
        }
        f
    }

    /// Takes in the report of an agent.
    pub fn on_report(&mut self, msg: AgentMetricsMsg, now: u64)
        ensures
            final(self)@ == after_report(old(self)@, msg, now),
    {
        let _ = self.timed_out.remove(msg.agent_id.as_str());
        self.last_seen.insert(msg.agent_id.clone(), now);
        if same_text(msg.phase.as_str(), "done") {
            self.done.insert(msg.agent_id.clone(), ());
        }
        let i: usize = position_of(&self.latest, msg.agent_id.as_str());
        let ghost m = msg;
        if i < self.latest.len() {
            self.latest.set(i, msg);
        } else {
            self.latest.push(msg);
        }
        proof {
            let expect = after_report(old(self)@, m, now);
            assert(self@.timed_out =~= expect.timed_out);
            assert(self@.done =~= expect.done);
            assert(self@.latest =~= expect.latest);
        }
    }

    /// Looks at the clock and at the agents.
    pub fn on_tick(&mut self, now: u64, timestamp_ns: u64) -> (r: FleetReport)
        ensures
            final(self)@ == after_look(old(self)@, now),
            reports_fleet(r.aggregate, old(self)@.latest, timestamp_ns),
            r.over == is_over(final(self)@),
    {
        self.mark_lost(now);
        FleetReport {
            aggregate: try_aggregate(self.latest.as_slice(), timestamp_ns),
            over: self.nobody_left(),
        }
    }

    /// Whether every registered agent is done or lost.
    fn nobody_left(&self) -> (r: bool)
        ensures
            r == is_over(self@),
    {
        let ghost ids = self@.agents;
        let mut i: usize = 0;
        while i < self.agents.len()
            invariant
                ids == self@.agents,
                i <= ids.len(),
                ids.len() == self.agents@.len(),
                forall|j: int|
                    0 <= j < i ==> self@.done.contains(#[trigger] ids[j])
                        || self@.timed_out.contains(ids[j]),
            decreases ids.len() - i,
        {
            let id = self.agents[i].as_str();
            proof {
                assert(ids[i as int] == id@);
                assert(self@.done.contains(id@) == self.done@.contains_key(id@));
                assert(self@.timed_out.contains(id@) == self.timed_out@.contains_key(id@));
            }
            if !(self.done.contains(id) || self.timed_out.contains(id)) {
                return false;
            }
            i = i + 1;
        }
        self.agents.len() > 0
    }

    /// Agents that were silent for too long count as lost.
    fn mark_lost(&mut self, now: u64)
        ensures
            final(self)@ == after_look(old(self)@, now),
    {
        let n: usize = self.last_seen.len();
        let ghost keys = self.last_seen.keys();
        let ghost start = self@;
        let mut i: usize = 0;
        while i < n
            invariant
                self.last_seen.listed(),
                keys == self.last_seen.keys(),
                n == keys.len(),
                i <= n,
                crate::text::texts(self.agents@) == start.agents,
                self.latest@ == start.latest,
                self.last_seen@ == start.last_seen,
                self.done@.dom() == start.done,
                forall|id: Seq<char>| #[trigger]
                    self.timed_out@.contains_key(id) <==> start.timed_out.contains(id) || (exists|
                        j: int,
                    |
                        0 <= j < i && keys[j] == id && silence(now, start.last_seen[id])
                            >= AGENT_TIMEOUT_SECS),
            decreases n - i,
        {
            let seen: u64 = *self.last_seen.value_at(i);
            let id = self.last_seen.key_at(i).clone();
            let secs: u64 = if now > seen {
                (now - seen) / 1_000_000_000
            } else {
                0
            };
            let ghost before = self.timed_out@;
            if secs >= AGENT_TIMEOUT_SECS {
                self.timed_out.insert(id.clone(), ());
            }
            proof {
                assert forall|x: Seq<char>| #[trigger]
                    self.timed_out@.contains_key(x) <==> start.timed_out.contains(x) || (exists|
                        j: int,
                    |
                        0 <= j < i + 1 && keys[j] == x && silence(now, start.last_seen[x])
                            >= AGENT_TIMEOUT_SECS) by {
                    assert(before.contains_key(x) <==> start.timed_out.contains(x) || (exists|
                        j: int,
                    |
                        0 <= j < i && keys[j] == x && silence(now, start.last_seen[x])
                            >= AGENT_TIMEOUT_SECS));
                    assert(keys[i as int] == id@);
                }
            }
            i = i + 1;
        }
        proof {
            let expect = after_look(start, now);
            assert forall|id: Seq<char>| self@.timed_out.contains(id)
                <==> expect.timed_out.contains(id) by {
                assert(self.timed_out@.contains_key(id) <==> self@.timed_out.contains(id));
                assert(self.last_seen@.contains_key(id) <==> keys.contains(id));
                if keys.contains(id) {
                    let j = keys.index_of(id);
                    assert(keys[j] == id);
                }
            }
            assert(self@.timed_out =~= expect.timed_out);
            assert(self@ =~= expect);
        }
    }

    /// The last look at the fleet, however the test ended.
    pub fn finish(&self, timestamp_ns: u64) -> (r: Option<AggregatedSnapshot>)
        ensures
            reports_fleet(r, self@.latest, timestamp_ns),
    {
        try_aggregate(self.latest.as_slice(), timestamp_ns)
    }
}

/// The same names again.
fn copy_ids(ids: &Vec<String>) -> (r: Vec<String>)
    ensures
        crate::text::texts(r@) == crate::text::texts(ids@),
{
    let mut r: Vec<String> = Vec::new();
    let mut i: usize = 0;
    while i < ids.len()
        invariant
            i <= ids@.len(),
            r@.len() == i,
            forall|j: int| 0 <= j < i ==> (#[trigger] r@[j])@ == ids@[j]@,
        decreases ids@.len() - i,
    {
        r.push(ids[i].clone());
        i = i + 1;
    }
    proof {
        assert(crate::text::texts(r@) =~= crate::text::texts(ids@));
    }
    r
}

/// The position of the report of `agent_id`, or the number of reports.
fn position_of(latest: &Vec<AgentMetricsMsg>, agent_id: &str) -> (i: usize)
    ensures
        i == report_at(latest@, agent_id@),
        i <= latest@.len(),
{
    let mut i: usize = 0;
    proof {
        assert(latest@.skip(0) =~= latest@);
    }
    while i < latest.len() && !same_text(latest[i].agent_id.as_str(), agent_id)
        invariant
            i <= latest@.len(),
            report_at(latest@, agent_id@) == i + report_at(latest@.skip(i as int), agent_id@),
        decreases latest@.len() - i,
    {
        proof {
            assert(latest@.skip(i as int)[0] == latest@[i as int]);
            assert(latest@.skip(i as int).drop_first() =~= latest@.skip(i + 1));
        }
        i = i + 1;
    }
    proof {
        if i < latest@.len() {
            assert(latest@.skip(i as int)[0] == latest@[i as int]);
        }
    }
    i
}

/// How the loop over the fleet ends.
#[derive(Clone, Copy, Debug, PartialEq, Eq, Structural)]
pub enum FleetEnd {
    /// Every agent is done or lost.
    Finished,
    /// The test was called off.
    Shutdown,
}

/// Whether a change of the shutdown signal ends the loop.
pub fn on_shutdown_signal(requested: bool) -> (r: Option<FleetEnd>)
    ensures
        r == if requested {
            Some(FleetEnd::Shutdown)
        } else {
            None
        },
{
    if requested {
        Some(FleetEnd::Shutdown)
    } else {
        None
    }
}

impl FleetEnd {
    /// How long the agents get after the stop command, in milliseconds: when the
    /// test was called off, requests are still under way.
    pub fn drain_ms(&self) -> (ms: u64)
        ensures
            ms == match *self {
                FleetEnd::Shutdown => 3000u64,
                FleetEnd::Finished => 500u64,
            },
    {
        match self {
            FleetEnd::Shutdown => 3000,
            FleetEnd::Finished => 500,
        }
    }
}

/// The command that stops all agents.
pub fn stop_command() -> (c: String)
    ensures
        c@ == "stop"@,
{
    "stop".to_string()
}

/// Whether a message on this subject carries metrics.
pub fn is_metrics_subject(subject: &str) -> (r: bool)
    ensures
        r == crate::text::begins_with(subject@, "loadpilot.metrics."@),
{
    starts_with(subject, "loadpilot.metrics.")
}

/// Whether a message on this subject announces an agent.
pub fn is_register_subject(subject: &str) -> (r: bool)
    ensures
        r == (subject@ == "loadpilot.register"@),
{
    same_text(subject, "loadpilot.register")
}

// ── Finding the agent program ─────────────────────────────────────────────────

/// The file name of the agent program.
pub fn agent_file_name(windows: bool) -> (n: &'static str)
    ensures
        n@ == if windows {
            "agent.exe"@
        } else {
            "agent"@
        },
{
    if windows {
        "agent.exe"
    } else {
        "agent"
    }
}

/// Where the agent program is looked for below the working directory, in order.
pub fn agent_candidates(name: &str) -> (c: Vec<String>)
    ensures
        crate::text::texts(c@) == seq!["target/release/"@ + name@, "target/debug/"@ + name@],
{
    let mut release = "target/release/".to_string();
    release.append(name);
    let mut debug = "target/debug/".to_string();
    debug.append(name);
    let mut c: Vec<String> = Vec::new();
    c.push(release);
    c.push(debug);
    proof {
        assert(crate::text::texts(c@) =~= seq![
            "target/release/"@ + name@,
            "target/debug/"@ + name@,
        ]);
    }
    c
}

/// What is said when the agent program is not found.
pub fn agent_missing(name: &str) -> (m: String)
    ensures
        m@ == "Could not find agent binary '"@ + name@
            + "'. Build it with: cargo build --release --package agent"@,
{
    let mut m = "Could not find agent binary '".to_string();
    m.append(name);
    m.append("'. Build it with: cargo build --release --package agent");
    m
}

// ── Laws ──────────────────────────────────────────────────────────────────────

/// An agent that was silent for too long is found out, and one that reported in
/// time is not.
pub proof fn silent_agents_time_out(f: FleetModel, now: u64, id: Seq<char>)
    requires
        f.last_seen.contains_key(id),
    ensures
        silence(now, f.last_seen[id]) >= AGENT_TIMEOUT_SECS ==> after_look(
            f,
            now,
        ).timed_out.contains(id),
        silence(now, f.last_seen[id]) < AGENT_TIMEOUT_SECS && !f.timed_out.contains(id)
            ==> !after_look(f, now).timed_out.contains(id),
{
}

/// The test goes on as long as a registered agent is left that is neither done
/// nor lost.
pub proof fn test_goes_on_without_the_lost(f: FleetModel, now: u64, id: Seq<char>)
    requires
        f.agents.contains(id),
        f.last_seen.contains_key(id),
        !f.done.contains(id),
        !f.timed_out.contains(id),
        silence(now, f.last_seen[id]) < AGENT_TIMEOUT_SECS,
    ensures
        !is_over(after_look(f, now)),
{
    let g = after_look(f, now);
    let i = f.agents.index_of(id);
    assert(g.agents[i] == id);
    assert(!g.done.contains(id) && !g.timed_out.contains(id));
}

/// The fleet has heard of every agent that registered.
pub open spec fn knows_its_agents(f: FleetModel) -> bool {
    forall|i: int|
        0 <= i < f.agents.len() ==> f.last_seen.contains_key(#[trigger] f.agents[i])
}

/// The fleet has heard of every agent that registered: from the start, after
/// every report and after every look.
pub proof fn agents_stay_known(
    agents: Seq<String>,
    f: FleetModel,
    msg: AgentMetricsMsg,
    now: u64,
)
    ensures
        knows_its_agents(fleet_start(agents, now)),
        knows_its_agents(f) ==> knows_its_agents(after_report(f, msg, now)),
        knows_its_agents(f) ==> knows_its_agents(after_look(f, now)),
{
    let start = fleet_start(agents, now);
    assert forall|i: int| 0 <= i < start.agents.len() implies start.last_seen.contains_key(
        #[trigger] start.agents[i],
    ) by {
        assert(crate::text::texts(agents).contains(start.agents[i]));
    }
}

/// The test never hangs: once every registered agent is done or has been silent
/// for too long, the next look ends it.
pub proof fn test_ends_when_nobody_is_left(f: FleetModel, now: u64)
    requires
        knows_its_agents(f),
        f.agents.len() > 0,
        forall|i: int|
            0 <= i < f.agents.len() ==> f.done.contains(#[trigger] f.agents[i]) || silence(
                now,
                f.last_seen[f.agents[i]],
            ) >= AGENT_TIMEOUT_SECS,
    ensures
        is_over(after_look(f, now)),
{
    let g = after_look(f, now);
    assert forall|i: int| 0 <= i < g.agents.len() implies g.done.contains(#[trigger] g.agents[i])
        || g.timed_out.contains(g.agents[i]) by {
        assert(f.last_seen.contains_key(f.agents[i]));
    }
}

/// An agent that never registered neither holds up the end of the test nor
/// brings it about, whatever it reports.
pub proof fn strangers_are_not_waited_for(
    f: FleetModel,
    msg: AgentMetricsMsg,
    seen: u64,
    now: u64,
)
    requires
        !f.agents.contains(msg.agent_id@),
    ensures
        is_over(after_look(after_report(f, msg, seen), now)) == is_over(after_look(f, now)),
{
    let g = after_look(after_report(f, msg, seen), now);
    let h = after_look(f, now);
    assert forall|i: int| 0 <= i < f.agents.len() implies (g.done.contains(#[trigger] f.agents[i])
        <==> h.done.contains(f.agents[i])) && (g.timed_out.contains(f.agents[i])
        <==> h.timed_out.contains(f.agents[i])) by {
        assert(f.agents.contains(f.agents[i]));
        assert(f.agents[i] != msg.agent_id@);
    }
    if is_over(g) {
        assert forall|i: int| 0 <= i < h.agents.len() implies h.done.contains(
            #[trigger] h.agents[i],
        ) || h.timed_out.contains(h.agents[i]) by {
            assert(g.done.contains(g.agents[i]) || g.timed_out.contains(g.agents[i]));
        }
    }
    if is_over(h) {
        assert forall|i: int| 0 <= i < g.agents.len() implies g.done.contains(
            #[trigger] g.agents[i],
        ) || g.timed_out.contains(g.agents[i]) by {
            assert(h.done.contains(h.agents[i]) || h.timed_out.contains(h.agents[i]));
        }
    }
}

/// A lost agent that reports again is back: it is no longer lost, and a look
/// within the time limit does not lose it again.
pub proof fn lost_agents_recover(f: FleetModel, msg: AgentMetricsMsg, seen: u64, now: u64)
    requires
        silence(now, seen) < AGENT_TIMEOUT_SECS,
    ensures
        !after_report(f, msg, seen).timed_out.contains(msg.agent_id@),
        !after_look(after_report(f, msg, seen), now).timed_out.contains(msg.agent_id@),
        f.agents.contains(msg.agent_id@) && msg.phase@ != "done"@ && !f.done.contains(
            msg.agent_id@,
        ) ==> !is_over(after_look(after_report(f, msg, seen), now)),
{
    let g = after_report(f, msg, seen);
    if f.agents.contains(msg.agent_id@) && msg.phase@ != "done"@ && !f.done.contains(
        msg.agent_id@,
    ) {
        test_goes_on_without_the_lost(g, now, msg.agent_id@);
    }
}

/// No two reports are of the same agent.
pub open spec fn one_report_each(latest: Seq<AgentMetricsMsg>) -> bool {
    forall|i: int, j: int|
        0 <= i < j < latest.len() ==> (#[trigger] latest[i]).agent_id@ != (
        #[trigger] latest[j]).agent_id@
}

proof fn lemma_report_at(latest: Seq<AgentMetricsMsg>, id: Seq<char>)
    ensures
        0 <= report_at(latest, id) <= latest.len(),
        report_at(latest, id) < latest.len() ==> latest[report_at(latest, id)].agent_id@ == id,
        forall|i: int|
            0 <= i < report_at(latest, id) ==> (#[trigger] latest[i]).agent_id@ != id,
    decreases latest.len(),
{
    if latest.len() > 0 && latest[0].agent_id@ != id {
        let rest = latest.drop_first();
        lemma_report_at(rest, id);
        assert forall|i: int| 0 <= i < report_at(latest, id) implies (
        #[trigger] latest[i]).agent_id@ != id by {
            if i > 0 {
                assert(rest[i - 1] == latest[i]);
            }
        }
    }
}

/// Each agent counts with its last report alone: a new one takes the place of
/// the earlier one.
pub proof fn last_report_counts(f: FleetModel, msg: AgentMetricsMsg, now: u64)
    requires
        one_report_each(f.latest),
    ensures
        one_report_each(after_report(f, msg, now).latest),
        after_report(f, msg, now).latest.contains(msg),
{
    let id = msg.agent_id@;
    let i = report_at(f.latest, id);
    let next = replaced(f.latest, msg);
    lemma_report_at(f.latest, id);
    assert forall|a: int, b: int| 0 <= a < b < next.len() implies (#[trigger] next[a]).agent_id@ != (
    #[trigger] next[b]).agent_id@ by {
        if i < f.latest.len() {
            if a != i && b != i {
                assert(next[a] == f.latest[a] && next[b] == f.latest[b]);
            } else if a == i {
                assert(f.latest[i].agent_id@ != f.latest[b].agent_id@);
            } else {
                assert(f.latest[a].agent_id@ != f.latest[i].agent_id@);
            }
        } else {
            assert(next[a] == f.latest[a]);
            if b < f.latest.len() {
                assert(next[b] == f.latest[b]);
            }
        }
    }
    if i < f.latest.len() {
        assert(next[i] == msg);
    } else {
        assert(next[next.len() - 1] == msg);
    }
}

/// A shard has at least one virtual user where the plan has any, and its equal
/// part of them where that is more; a plan without a number has shards without
/// one.
pub proof fn shards_have_virtual_users(v: u64, n: usize, idx: usize)
    requires
        n > 0,
        idx < n,
    ensures
        vuser_part(None, n, idx) is None,
        vuser_part(Some(v), n, idx) is Some,
        vuser_part(Some(v), n, idx)->0 >= 1,
        idx < n - 1 && v >= n ==> vuser_part(Some(v), n, idx)->0 == v as int / n as int,
        idx == n - 1 && v >= n ==> vuser_part(Some(v), n, idx)->0 + v as int / n as int * (n - 1)
            == v,
        idx < n - 1 && v < n ==> vuser_part(Some(v), n, idx)->0 == 1,
{
    lemma_part_range(v, n, idx);
    let a = v as int;
    let d = n as int;
    let q = a / d;
    vstd::arithmetic::div_mod::lemma_fundamental_div_mod(a, d);
    assert(a >= d ==> q >= 1) by (nonlinear_arith)
        requires
            a == d * q + a % d,
            a % d < d,
            d > 0,
    ;
    assert(a < d ==> q <= 0) by (nonlinear_arith)
        requires
            a == d * q + a % d,
            a % d >= 0,
            d > 0,
    ;
    assert(a - q * (d - 1) == q + a % d) by (nonlinear_arith)
        requires
            a == d * q + a % d,
    ;
}

/// A shard is the plan in all but its rate and its virtual users, and each agent
/// gets its own with the common start.
pub proof fn shards_are_the_plan(
    msgs: Seq<ShardMsg>,
    plan: PlanModel,
    n: usize,
    agents: Seq<String>,
    start_at: u64,
    i: int,
)
    requires
        n > 0,
        agents.len() <= n,
        are_shard_messages(msgs, plan, n, agents, start_at),
        0 <= i < agents.len(),
    ensures
        msgs.len() == agents.len(),
        msgs[i].agent_id@ == agents[i]@,
        msgs[i].start_at_unix_ms == start_at,
        ({
            let shard = msgs[i].plan@;
            &&& shard.name == plan.name
            &&& shard.duration_secs == plan.duration_secs
            &&& shard.ramp_up_secs == plan.ramp_up_secs
            &&& shard.mode == plan.mode
            &&& shard.target_url == plan.target_url
            &&& shard.tasks == plan.tasks
            &&& shard.scenario_file == plan.scenario_file
            &&& shard.scenario_class == plan.scenario_class
            &&& shard.vuser_configs == plan.vuser_configs
            &&& shard.steps == plan.steps
            &&& shard.n_vusers is Some <==> plan.n_vusers is Some
            &&& i < n - 1 ==> shard.rps == plan.rps as int / n as int
            &&& i == n - 1 ==> shard.rps + plan.rps as int / n as int * (n - 1) == plan.rps
        }),
{
    lemma_part_range(plan.rps, n, i as usize);
}

/// Agents are known in the order of their first announcements: a new one comes
/// after all that were known.
pub proof fn agents_stay_in_order(ids: Seq<Seq<char>>, id: Seq<char>)
    ensures
        ids.contains(id) ==> announced(ids.push(id)) == announced(ids),
        !ids.contains(id) ==> announced(ids.push(id)) == announced(ids).push(id),
{
    assert(ids.push(id).drop_last() =~= ids);
    registration_counts_distinct_agents(ids);
    assert(announced(ids).to_set().contains(id) <==> ids.to_set().contains(id));
}

/// An agent is lost at a look at the clock exactly where it was lost before or was
/// last heard of fifteen seconds ago or more; nothing else changes.
pub proof fn looks_find_the_silent(f: FleetModel, now: u64, id: Seq<char>)
    ensures
        after_look(f, now).timed_out.contains(id) <==> f.timed_out.contains(id) || (
        f.last_seen.contains_key(id) && now >= f.last_seen[id] + 15_000_000_000),
        after_look(f, now).agents == f.agents,
        after_look(f, now).latest == f.latest,
        after_look(f, now).last_seen == f.last_seen,
        after_look(f, now).done == f.done,
{
}

/// A fleet starts with the agents that registered, all just seen, none of them
/// lost or done, and without reports.
pub proof fn fleets_start_afresh(agents: Seq<String>, now: u64, id: Seq<char>)
    ensures
        fleet_start(agents, now).agents.len() == agents.len(),
        forall|i: int|
            0 <= i < agents.len() ==> #[trigger] fleet_start(agents, now).agents[i] == agents[i]@,
        fleet_start(agents, now).latest.len() == 0,
        fleet_start(agents, now).last_seen.contains_key(id) <==> exists|i: int|
            0 <= i < agents.len() && (#[trigger] agents[i])@ == id,
        fleet_start(agents, now).last_seen.contains_key(id) ==> fleet_start(
            agents,
            now,
        ).last_seen[id] == now,
        !fleet_start(agents, now).timed_out.contains(id),
        !fleet_start(agents, now).done.contains(id),
{
    let ids = crate::text::texts(agents);
    if ids.contains(id) {
        let i = ids.index_of(id);
        assert(agents[i]@ == id);
    }
    if exists|i: int| 0 <= i < agents.len() && (#[trigger] agents[i])@ == id {
        let i = choose|i: int| 0 <= i < agents.len() && (#[trigger] agents[i])@ == id;
        assert(ids[i] == id);
    }
}

/// A report changes what is known of its agent alone: it was heard of now, is not
/// lost, is done where it says so, and its report takes the place of the earlier
/// one or comes last; the other agents and their reports stay as they are.
pub proof fn reports_change_their_agent_alone(
    f: FleetModel,
    msg: AgentMetricsMsg,
    now: u64,
    other: Seq<char>,
)
    requires
        other != msg.agent_id@,
    ensures
        ({
            let g = after_report(f, msg, now);
            let id = msg.agent_id@;
            &&& g.agents == f.agents
            &&& g.last_seen.contains_key(id) && g.last_seen[id] == now
            &&& g.last_seen.contains_key(other) <==> f.last_seen.contains_key(other)
            &&& f.last_seen.contains_key(other) ==> g.last_seen[other] == f.last_seen[other]
            &&& !g.timed_out.contains(id)
            &&& g.timed_out.contains(other) <==> f.timed_out.contains(other)
            &&& g.done.contains(id) <==> f.done.contains(id) || msg.phase@ == "done"@
            &&& g.done.contains(other) <==> f.done.contains(other)
            &&& f.latest.len() <= g.latest.len() <= f.latest.len() + 1
            &&& g.latest.contains(msg)
            &&& g.latest.len() > f.latest.len() <==> forall|i: int|
                0 <= i < f.latest.len() ==> (#[trigger] f.latest[i]).agent_id@ != id
            &&& forall|i: int|
                0 <= i < f.latest.len() && (#[trigger] f.latest[i]).agent_id@ != id ==> g.latest[i]
                    == f.latest[i]
        }),
{
    let id = msg.agent_id@;
    let g = after_report(f, msg, now);
    let at = report_at(f.latest, id);
    lemma_report_at(f.latest, id);
    if at < f.latest.len() {
        assert(g.latest[at] == msg);
    } else {
        assert(g.latest[g.latest.len() - 1] == msg);
    }
}

/// A fleet is over exactly where it has agents and each of them is done or lost;
/// one without agents never is.
pub proof fn fleets_need_agents(f: FleetModel)
    ensures
        f.agents.len() == 0 ==> !is_over(f),
        is_over(f) ==> forall|id: Seq<char>| #[trigger]
            f.agents.contains(id) ==> f.done.contains(id) || f.timed_out.contains(id),
        f.agents.len() > 0 && (forall|id: Seq<char>| #[trigger]
            f.agents.contains(id) ==> f.done.contains(id) || f.timed_out.contains(id)) ==> is_over(
            f,
        ),
{
    if f.agents.len() > 0 && (forall|id: Seq<char>| #[trigger]
        f.agents.contains(id) ==> f.done.contains(id) || f.timed_out.contains(id)) {
        assert forall|i: int| 0 <= i < f.agents.len() implies f.done.contains(
            #[trigger] f.agents[i],
        ) || f.timed_out.contains(f.agents[i]) by {
            assert(f.agents.contains(f.agents[i]));
        }
    }
    if is_over(f) {
        assert forall|id: Seq<char>| #[trigger] f.agents.contains(id) implies f.done.contains(id)
            || f.timed_out.contains(id) by {
            let i = f.agents.index_of(id);
            assert(f.agents[i] == id);
        }
    }
}

/// The model of a fleet is what is known of it.
pub proof fn fleets_are_their_model(f: Fleet, i: int, id: Seq<char>)
    ensures
        f@.agents.len() == f.agents@.len(),
        0 <= i < f.agents@.len() ==> f@.agents[i] == f.agents@[i]@,
        f@.latest == f.latest@,
        f@.last_seen == f.last_seen@,
        f@.timed_out.contains(id) <==> f.timed_out@.contains_key(id),
        f@.done.contains(id) <==> f.done@.contains_key(id),
{
}

/// What is reported of a fleet are the metrics of its agents, at that time.
pub proof fn fleet_reports_are_aggregates(
    r: Option<AggregatedSnapshot>,
    latest: Seq<AgentMetricsMsg>,
    timestamp_ns: u64,
)
    requires
        reports_fleet(r, latest, timestamp_ns),
    ensures
        crate::wire::agents_fit(latest) ==> r is Some,
        r is Some ==> r->0.timestamp_ns == timestamp_ns && crate::wire::is_aggregate(r->0, latest),
{
}

} // verus!

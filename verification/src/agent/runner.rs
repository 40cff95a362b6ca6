//! The load that an agent generates: which requests go out at each tick, what
//! is counted and what is reported.
use crate::budget::RequestBudget;
use crate::http::HttpRequest;
use crate::map::copy_strings;
use crate::map::StringMap;
use crate::metrics::bump;
use crate::metrics::HistogramModel;
use crate::metrics::LatencyHistogram;
use crate::metrics::LatencySnapshot;
use crate::number::nanos_of;
use crate::number::Fraction;
use crate::plan::HttpMethod;
use crate::scheduler::owner_at;
use crate::scheduler::Profile;
use crate::text::chars_of;
use vstd::prelude::*;

pub use crate::plan::Mode;

verus! {

// ── Plan ──────────────────────────────────────────────────────────────────────

/// A task of an agent's plan.
#[derive(Debug)]
pub struct TaskPlan {
    pub name: String,
    pub weight: u32,
    pub url: String,
    pub method: String,
    pub headers: StringMap<String>,
    pub body_template: Option<String>,
}

/// What one virtual user brought along from its start.
#[derive(Debug)]
pub struct VUserConfig {
    /// Task name to headers.
    pub task_headers: StringMap<StringMap<String>>,
    /// Task name to the path that takes the place of the task's own.
    pub task_urls: StringMap<String>,
}

/// An agent's shard of a plan.
#[derive(Debug)]
pub struct Plan {
    pub name: String,
    pub rps: u64,
    pub duration_secs: u64,
    pub ramp_up_secs: u64,
    pub mode: Mode,
    pub steps: u64,
    pub target_url: String,
    pub tasks: Vec<TaskPlan>,
    pub n_vusers: Option<u64>,
    /// Virtual users that take turns.
    pub vuser_configs: Vec<VUserConfig>,
}

/// The weight of a task whose plan names none.
pub fn default_weight() -> (w: u32)
    ensures
        w == 1,
{
    1
}

/// The method of a task whose plan names none.
pub fn default_method() -> (m: String)
    ensures
        m@ == "GET"@,
{
    "GET".to_string()
}

/// The number of load steps of a plan that names none.
pub fn default_steps() -> (n: u64)
    ensures
        n == 5,
{
    5
}

// ── Load profile ──────────────────────────────────────────────────────────────

/// The load profile of a plan.
pub open spec fn profile_of(plan: Plan) -> Profile {
    Profile {
        mode: plan.mode,
        rps: plan.rps,
        duration_secs: plan.duration_secs,
        ramp_up_secs: plan.ramp_up_secs,
        steps: plan.steps,
    }
}

/// The load profile of a plan.
fn profile(plan: &Plan) -> (p: Profile)
    ensures
        p == profile_of(*plan),
{
    Profile {
        mode: plan.mode,
        rps: plan.rps,
        duration_secs: plan.duration_secs,
        ramp_up_secs: plan.ramp_up_secs,
        steps: plan.steps,
    }
}

/// The target rate after `elapsed` nanoseconds.
pub fn compute_target_rps(elapsed: u64, plan: &Plan) -> (r: Fraction)
    ensures
        r == crate::scheduler::rate_at(profile_of(*plan), elapsed),
        r.wf(),
{
    profile(plan).rate_at(elapsed)
}

/// How long the plan runs, in seconds. A ramp comes on top of the duration.
pub fn total_duration(plan: &Plan) -> (s: u64)
    requires
        crate::scheduler::total_secs(profile_of(*plan)) <= u64::MAX,
    ensures
        s == crate::scheduler::total_secs(profile_of(*plan)),
{
    profile(plan).total_secs()
}

/// The name of the phase after `elapsed` nanoseconds.
pub fn phase_str(elapsed: u64, plan: &Plan) -> (s: &'static str)
    ensures
        s@ == crate::scheduler::phase_name(
            crate::scheduler::phase_at(profile_of(*plan), elapsed),
        ),
{
    profile(plan).phase_at(elapsed).as_str()
}

// ── Reports ───────────────────────────────────────────────────────────────────

/// The report of an agent.
#[derive(Debug)]
pub struct AgentMetrics {
    /// Filled in by the session.
    pub agent_id: String,
    pub elapsed_ns: u64,
    pub current_rps: Fraction,
    pub target_rps: Fraction,
    pub requests_total: u64,
    pub errors_total: u64,
    pub active_workers: u64,
    pub phase: String,
    pub latency: LatencySnapshot,
    /// Pairs of a bucket, in milliseconds, and its count, for buckets that have
    /// one.
    pub histogram_buckets: Vec<[u64; 2]>,
}

/// The pairs of position and count for the positions that have one.
pub open spec fn sparse(counts: Seq<u64>) -> Seq<Seq<u64>>
    decreases counts.len(),
{
    if counts.len() == 0 {
        seq![]
    } else if counts.last() > 0 {
        sparse(counts.drop_last()).push(seq![(counts.len() - 1) as u64, counts.last()])
    } else {
        sparse(counts.drop_last())
    }
}

/// The pairs as sequences.
pub open spec fn pairs(entries: Seq<[u64; 2]>) -> Seq<Seq<u64>> {
    entries.map_values(|e: [u64; 2]| e@)
}

/// What was counted.
#[derive(Debug)]
pub struct Counters {
    pub histogram: LatencyHistogram,
    pub errors_total: u64,
    pub window_requests: u64,
}

/// The counters without their storage.
#[verifier::ext_equal]
pub struct CountersModel {
    pub histogram: HistogramModel,
    pub errors_total: u64,
    pub window_requests: u64,
}

impl View for Counters {
    type V = CountersModel;

    open spec fn view(&self) -> CountersModel {
        CountersModel {
            histogram: self.histogram@,
            errors_total: self.errors_total,
            window_requests: self.window_requests,
        }
    }
}

/// The counters before any request.
pub open spec fn no_calls() -> CountersModel {
    CountersModel {
        histogram: crate::metrics::no_latencies(),
        errors_total: 0,
        window_requests: 0,
    }
}

/// The counters with one more request.
pub open spec fn counted(c: CountersModel, ms: u64, is_error: bool) -> CountersModel {
    CountersModel {
        histogram: crate::metrics::recorded(c.histogram, ms),
        errors_total: if is_error {
            crate::metrics::wrapped(c.errors_total, 1)
        } else {
            c.errors_total
        },
        window_requests: crate::metrics::wrapped(c.window_requests, 1),
    }
}

/// `m` reports the counters.
pub open spec fn reports(m: AgentMetrics, c: CountersModel) -> bool {
    &&& m.agent_id@ == ""@
    &&& m.requests_total == c.histogram.count
    &&& m.errors_total == c.errors_total
    &&& m.active_workers == 0
    &&& m.latency == crate::metrics::latency_of(c.histogram)
    &&& pairs(m.histogram_buckets@) == sparse(c.histogram.buckets)
}

impl Counters {
    /// The histogram is well formed.
    pub open spec fn wf(self) -> bool {
        self.histogram.wf()
    }

    /// Nothing has been counted.
    pub fn new() -> (c: Counters)
        ensures
            c.wf(),
            c@ == no_calls(),
    {
        Counters { histogram: LatencyHistogram::new(), errors_total: 0, window_requests: 0 }
    }

    /// Counts a request.
    pub fn record(&mut self, latency_ms: u64, is_error: bool)
        requires
            old(self).wf(),
        ensures
            final(self).wf(),
            final(self)@ == counted(old(self)@, latency_ms, is_error),
    {
        self.histogram.record(latency_ms);
        self.window_requests = bump(self.window_requests);
        if is_error {
            self.errors_total = bump(self.errors_total);
        }
    }

    /// The latency below or at which the share `p` of the requests lies.
    pub fn percentile(&self, p: Fraction) -> (r: u64)
        requires
            self.wf(),
            crate::metrics::is_small(p),
        ensures
            r == crate::metrics::percentile_of(self.histogram.buckets@, self.histogram.count, p),
    {
        self.histogram.percentile(p)
    }

    /// The buckets that have a count.
    fn sparse_buckets(&self) -> (entries: Vec<[u64; 2]>)
        requires
            self.wf(),
        ensures
            pairs(entries@) == sparse(self.histogram.buckets@),
    {
        let buckets = &self.histogram.buckets;
        let mut entries: Vec<[u64; 2]> = Vec::new();
        let mut i: usize = 0;
        proof {
            assert(buckets@.take(0) =~= Seq::<u64>::empty());
            assert(pairs(entries@) =~= Seq::<Seq<u64>>::empty());
        }
        while i < buckets.len()
            invariant
                i <= buckets@.len() == crate::metrics::BUCKETS,
                pairs(entries@) == sparse(buckets@.take(i as int)),
            decreases buckets@.len() - i,
        {
            proof {
                assert(buckets@.take(i + 1).drop_last() =~= buckets@.take(i as int));
            }
            let c: u64 = buckets[i];
            if c > 0 {
                let ghost before = entries@;
                let entry: [u64; 2] = [i as u64, c];
                entries.push(entry);
                proof {
                    assert(entry@ =~= seq![i as u64, c]);
                    assert(pairs(entries@) =~= pairs(before).push(entry@));
                }
            }
            i = i + 1;
        }
        proof {
            assert(buckets@.take(buckets@.len() as int) =~= buckets@);
        }
        entries
    }

    /// The report of the counters.
    pub fn snapshot(
        &self,
        elapsed_ns: u64,
        current_rps: Fraction,
        target_rps: Fraction,
        phase: &str,
    ) -> (m: AgentMetrics)
        requires
            self.wf(),
        ensures
            m.elapsed_ns == elapsed_ns,
            m.current_rps == current_rps,
            m.target_rps == target_rps,
            m.phase@ == phase@,
            reports(m, self@),
    {
        AgentMetrics {
            agent_id: "".to_string(),
            elapsed_ns,
            current_rps,
            target_rps,
            requests_total: self.histogram.count,
            errors_total: self.errors_total,
            active_workers: 0,
            phase: phase.to_string(),
            latency: self.histogram.snapshot(),
            histogram_buckets: self.sparse_buckets(),
        }
    }
}

proof fn lemma_sparse_counts(entries: Seq<[u64; 2]>, counts: Seq<u64>, b: int)
    requires
        counts.len() <= crate::metrics::BUCKETS,
        pairs(entries) == sparse(counts),
        0 <= b < crate::metrics::BUCKETS,
    ensures
        crate::wire::count_in(entries, b) == if b < counts.len() {
            counts[b] as nat
        } else {
            0
        },
    decreases counts.len(),
{
    if counts.len() == 0 {
        assert(pairs(entries).len() == entries.len());
    } else {
        let front = counts.drop_last();
        if counts.last() > 0 {
            let e = entries.last();
            assert(pairs(entries).len() == entries.len());
            assert(pairs(entries).last() == e@);
            assert(e@[0] == counts.len() - 1);
            assert(e@[1] == counts.last());
            assert(pairs(entries.drop_last()) =~= pairs(entries).drop_last());
            assert(sparse(counts).drop_last() =~= sparse(front));
            lemma_sparse_counts(entries.drop_last(), front, b);
        } else {
            lemma_sparse_counts(entries, front, b);
        }
    }
}

/// The pairs that an agent reports say exactly what its histogram counts: the
/// coordinator loses nothing of it.
pub proof fn reported_buckets_are_complete(entries: Seq<[u64; 2]>, counts: Seq<u64>, b: int)
    requires
        counts.len() == crate::metrics::BUCKETS,
        pairs(entries) == sparse(counts),
        0 <= b < crate::metrics::BUCKETS,
    ensures
        crate::wire::count_in(entries, b) == counts[b],
{
    lemma_sparse_counts(entries, counts, b);
}

/// A request that has come back: its latency and whether it failed.
pub struct Call {
    pub latency_ms: u64,
    pub is_error: bool,
}

/// The counters after these calls, one after the other.
pub open spec fn all_counted(c: CountersModel, calls: Seq<Call>) -> CountersModel
    decreases calls.len(),
{
    if calls.len() == 0 {
        c
    } else {
        counted(
            all_counted(c, calls.drop_last()),
            calls.last().latency_ms,
            calls.last().is_error,
        )
    }
}

/// The latencies of the calls.
pub open spec fn latencies(calls: Seq<Call>) -> Seq<u64> {
    calls.map_values(|k: Call| k.latency_ms)
}

/// How many of the calls failed.
pub open spec fn failures(calls: Seq<Call>) -> nat
    decreases calls.len(),
{
    if calls.len() == 0 {
        0
    } else {
        failures(calls.drop_last()) + (if calls.last().is_error {
            1nat
        } else {
            0nat
        })
    }
}

proof fn lemma_counted_histogram(c: CountersModel, calls: Seq<Call>)
    ensures
        all_counted(c, calls).histogram == crate::histogram_laws::all_recorded(
            c.histogram,
            latencies(calls),
        ),
    decreases calls.len(),
{
    if calls.len() > 0 {
        lemma_counted_histogram(c, calls.drop_last());
        assert(latencies(calls).drop_last() =~= latencies(calls.drop_last()));
    }
}

proof fn lemma_counted_errors(calls: Seq<Call>)
    requires
        calls.len() <= u64::MAX,
    ensures
        failures(calls) <= calls.len(),
        all_counted(no_calls(), calls).errors_total == failures(calls),
        all_counted(no_calls(), calls).window_requests == calls.len(),
    decreases calls.len(),
{
    if calls.len() > 0 {
        lemma_counted_errors(calls.drop_last());
    }
}

/// The counters of an agent hold together after any calls: there is a bucket for
/// each millisecond, the buckets add up to the number of calls, no more calls
/// failed than there were, and the sum of the latencies lies between the least
/// and the greatest of them taken as often as there were calls.
pub proof fn counters_hold_together(calls: Seq<Call>)
    requires
        calls.len() <= u64::MAX,
        crate::histogram_laws::sum_of(latencies(calls)) <= u64::MAX,
    ensures
        ({
            let c = all_counted(no_calls(), calls);
            let h = c.histogram;
            &&& h.count == calls.len()
            &&& h.buckets.len() == crate::metrics::BUCKETS
            &&& crate::histogram_laws::first_counts(h.buckets, h.buckets.len() as int) == h.count
            &&& c.errors_total == failures(calls)
            &&& c.errors_total <= h.count
            &&& c.window_requests == calls.len()
            &&& h.count > 0 ==> h.min_ms <= h.max_ms
            &&& h.count > 0 ==> h.min_ms * h.count <= h.sum_ms <= h.max_ms * h.count
        }),
{
    let ls = latencies(calls);
    lemma_counted_histogram(no_calls(), calls);
    lemma_counted_errors(calls);
    crate::histogram_laws::histogram_counts(ls);
    crate::histogram_laws::histogram_is_balanced(ls);
}

proof fn lemma_counted_buckets(c: CountersModel, calls: Seq<Call>)
    requires
        c.histogram.buckets.len() == crate::metrics::BUCKETS,
    ensures
        all_counted(c, calls).histogram.buckets.len() == crate::metrics::BUCKETS,
    decreases calls.len(),
{
    if calls.len() > 0 {
        lemma_counted_buckets(c, calls.drop_last());
    }
}

proof fn lemma_counting_commutes(c: CountersModel, x: Call, y: Call)
    requires
        c.histogram.buckets.len() == crate::metrics::BUCKETS,
    ensures
        counted(counted(c, x.latency_ms, x.is_error), y.latency_ms, y.is_error) == counted(
            counted(c, y.latency_ms, y.is_error),
            x.latency_ms,
            x.is_error,
        ),
{
    crate::histogram_laws::recording_commutes(c.histogram, x.latency_ms, y.latency_ms);
}

proof fn lemma_call_may_be_last(c: CountersModel, calls: Seq<Call>, k: int)
    requires
        c.histogram.buckets.len() == crate::metrics::BUCKETS,
        0 <= k < calls.len(),
    ensures
        all_counted(c, calls) == counted(
            all_counted(c, calls.remove(k)),
            calls[k].latency_ms,
            calls[k].is_error,
        ),
    decreases calls.len(),
{
    let front = calls.drop_last();
    if k == calls.len() - 1 {
        assert(calls.remove(k) =~= front);
    } else {
        lemma_call_may_be_last(c, front, k);
        assert(calls.remove(k).drop_last() =~= front.remove(k));
        assert(calls.remove(k).last() == calls.last());
        lemma_counted_buckets(c, front.remove(k));
        lemma_counting_commutes(all_counted(c, front.remove(k)), calls[k], calls.last());
    }
}

/// The counters of an agent do not depend on the order in which its calls come
/// back.
pub proof fn counters_ignore_order(c: CountersModel, a: Seq<Call>, b: Seq<Call>)
    requires
        c.histogram.buckets.len() == crate::metrics::BUCKETS,
        a.to_multiset() == b.to_multiset(),
    ensures
        all_counted(c, a) == all_counted(c, b),
    decreases a.len(),
{
    if a.len() == 0 {
        crate::number::same_items(a, b);
        assert(a =~= b);
    } else {
        let k = crate::number::same_items_step(a, b);
        counters_ignore_order(c, a.drop_last(), b.remove(k));
        lemma_call_may_be_last(c, b, k);
    }
}

/// The report of an agent is exact: it states how many requests there were, how
/// many of them failed, and how many latencies fell into each bucket.
pub proof fn agent_report_is_exact(m: AgentMetrics, calls: Seq<Call>)
    requires
        calls.len() <= u64::MAX,
        reports(m, all_counted(no_calls(), calls)),
    ensures
        m.requests_total == calls.len(),
        m.errors_total == failures(calls),
        forall|b: int|
            0 <= b < crate::metrics::BUCKETS ==> #[trigger] crate::wire::count_in(
                m.histogram_buckets@,
                b,
            ) == crate::histogram_laws::count_at(latencies(calls), b),
{
    let ls = latencies(calls);
    lemma_counted_histogram(no_calls(), calls);
    lemma_counted_errors(calls);
    crate::histogram_laws::histogram_counts(ls);
    let h = crate::histogram_laws::histogram_of(ls);
    assert forall|b: int| 0 <= b < crate::metrics::BUCKETS implies #[trigger] crate::wire::count_in(
        m.histogram_buckets@,
        b,
    ) == crate::histogram_laws::count_at(ls, b) by {
        reported_buckets_are_complete(m.histogram_buckets@, h.buckets, b);
        assert(h.buckets[b] == crate::histogram_laws::count_at(ls, b));
    }
}

// ── Choice of tasks ───────────────────────────────────────────────────────────

/// The weights of the tasks.
pub open spec fn weights(tasks: Seq<TaskPlan>) -> Seq<nat> {
    tasks.map_values(|t: TaskPlan| t.weight as nat)
}

/// The position of the task for pick number `idx`.
fn pick_index(tasks: &[TaskPlan], idx: u64) -> (i: usize)
    requires
        0 < crate::number::total(weights(tasks@)) <= u32::MAX,
    ensures
        i < tasks@.len(),
        i == crate::scheduler::picked(weights(tasks@), idx as int),
{
    let mut ws: Vec<u32> = Vec::new();
    let mut sum: u32 = 0;
    let ghost nats = weights(tasks@);
    let mut i: usize = 0;
    proof {
        assert(nats.take(0) =~= Seq::<nat>::empty());
    }
    while i < tasks.len()
        invariant
            nats == weights(tasks@),
            crate::number::total(nats) <= u32::MAX,
            i <= tasks@.len(),
            ws@.len() == i,
            forall|j: int| 0 <= j < i ==> #[trigger] ws@[j] == tasks@[j].weight,
            sum == crate::number::total(nats.take(i as int)),
        decreases tasks@.len() - i,
    {
        proof {
            crate::number::total_step(nats, i as int);
            crate::number::total_monotone(nats, i + 1);
        }
        ws.push(tasks[i].weight);
        sum = sum + tasks[i].weight;
        i = i + 1;
    }
    proof {
        assert(nats.take(nats.len() as int) =~= nats);
        assert(ws@.map_values(|w: u32| w as nat) =~= nats);
    }
    let slot: u32 = (idx % sum as u64) as u32;
    owner_at(&ws, slot)
}

/// The task for pick number `idx`, by weight.
pub fn pick_task(tasks: &[TaskPlan], idx: u64) -> (t: &TaskPlan)
    requires
        0 < crate::number::total(weights(tasks@)) <= u32::MAX,
    ensures
        0 <= crate::scheduler::picked(weights(tasks@), idx as int) < tasks@.len(),
        *t == tasks@[crate::scheduler::picked(weights(tasks@), idx as int)],
{
    let i: usize = pick_index(tasks, idx);
    &tasks[i]
}

// ── Requests ──────────────────────────────────────────────────────────────────

/// The lower-case form of an ASCII character.
pub open spec fn ascii_lower(c: char) -> char {
    if 'A' <= c <= 'Z' {
        (c as u32 + 32) as char
    } else {
        c
    }
}

/// Whether two header names are the same: letter case does not count.
pub open spec fn same_name(a: Seq<char>, b: Seq<char>) -> bool {
    a.len() == b.len() && forall|i: int|
        0 <= i < a.len() ==> ascii_lower(#[trigger] a[i]) == ascii_lower(b[i])
}

/// Whether a map of headers has one of this name.
pub open spec fn has_name(headers: Map<Seq<char>, Seq<char>>, name: Seq<char>) -> bool {
    exists|k: Seq<char>| #[trigger] headers.contains_key(k) && same_name(k, name)
}

/// The headers of a task together with those of a virtual user, which take
/// precedence.
pub open spec fn merged_headers(
    own: Map<Seq<char>, Seq<char>>,
    extra: Map<Seq<char>, Seq<char>>,
) -> Map<Seq<char>, Seq<char>> {
    Map::new(
        |k: Seq<char>| extra.contains_key(k) || (own.contains_key(k) && !has_name(extra, k)),
        |k: Seq<char>|
            if extra.contains_key(k) {
                extra[k]
            } else {
                own[k]
            },
    )
}

/// The lower-case form of an ASCII character.
fn lower(c: char) -> (r: char)
    ensures
        r == ascii_lower(c),
{
    if 'A' <= c && c <= 'Z' {
        (c as u8 + 32) as char
    } else {
        c
    }
}

/// Whether two header names are the same.
pub fn same_header(a: &str, b: &str) -> (r: bool)
    ensures
        r == same_name(a@, b@),
{
    let x = chars_of(a);
    let y = chars_of(b);
    if x.len() != y.len() {
        return false;
    }
    let mut i: usize = 0;
    while i < x.len()
        invariant
            x@ == a@,
            y@ == b@,
            x@.len() == y@.len(),
            i <= x@.len(),
            forall|j: int| 0 <= j < i ==> ascii_lower(#[trigger] x@[j]) == ascii_lower(y@[j]),
        decreases x@.len() - i,
    {
        if lower(x[i]) != lower(y[i]) {
            return false;
        }
        i = i + 1;
    }
    true
}

/// Whether a map of headers has one of this name.
fn has_header(headers: &StringMap<String>, name: &str) -> (r: bool)
    ensures
        r == has_name(crate::map::text_map(headers@), name@),
{
    let n: usize = headers.len();
    let ghost keys = headers.keys();
    let mut i: usize = 0;
    while i < n
        invariant
            headers.listed(),
            keys == headers.keys(),
            n == keys.len(),
            i <= n,
            forall|j: int| 0 <= j < i ==> !same_name(#[trigger] keys[j], name@),
        decreases n - i,
    {
        let k = headers.key_at(i);
        if same_header(k.as_str(), name) {
            proof {
                assert(crate::map::text_map(headers@).contains_key(keys[i as int]));
            }
            return true;
        }
        i = i + 1;
    }
    proof {
        if has_name(crate::map::text_map(headers@), name@) {
            let k = choose|k: Seq<char>| #[trigger]
                crate::map::text_map(headers@).contains_key(k) && same_name(k, name@);
            assert(headers@.contains_key(k));
            let j = keys.index_of(k);
            assert(keys.contains(k));
            assert(same_name(keys[j], name@));
        }
    }
    false
}

/// The headers of a task together with those of a virtual user.
pub fn merge_headers(own: &StringMap<String>, extra: &StringMap<String>) -> (r: StringMap<String>)
    ensures
        crate::map::text_map(r@) == merged_headers(
            crate::map::text_map(own@),
            crate::map::text_map(extra@),
        ),
{
    let mut r = copy_strings(extra);
    let n: usize = own.len();
    let ghost keys = own.keys();
    let ghost have = crate::map::text_map(extra@);
    let mut i: usize = 0;
    while i < n
        invariant
            own.listed(),
            keys == own.keys(),
            n == keys.len(),
            i <= n,
            have == crate::map::text_map(extra@),
            forall|k: Seq<char>| #[trigger]
                r@.contains_key(k) <==> extra@.contains_key(k) || (exists|j: int|
                    0 <= j < i && keys[j] == k && !has_name(have, k)),
            forall|k: Seq<char>| #[trigger]
                r@.contains_key(k) ==> r@[k] == if extra@.contains_key(k) {
                    extra@[k]
                } else {
                    own@[k]
                },
        decreases n - i,
    {
        let k = own.key_at(i);
        let ghost before = r@;
        let ghost key = k@;
        let taken = has_header(extra, k.as_str());
        if !taken {
            r.insert(k.clone(), own.value_at(i).clone());
        }
        proof {
            lemma_same_name_reflexive(key);
            if extra@.contains_key(key) {
                assert(have.contains_key(key));
            }
            assert forall|x: Seq<char>| #[trigger] r@.contains_key(x) <==> extra@.contains_key(x)
                || (exists|j: int| 0 <= j < i + 1 && keys[j] == x && !has_name(have, x)) by {
                assert(before.contains_key(x) <==> extra@.contains_key(x) || (exists|j: int|
                    0 <= j < i && keys[j] == x && !has_name(have, x)));
                assert(keys[i as int] == key);
            }
            assert forall|x: Seq<char>| #[trigger] r@.contains_key(x) implies r@[x]
                == if extra@.contains_key(x) {
                extra@[x]
            } else {
                own@[x]
            } by {
                if x != key || taken {
                    assert(before.contains_key(x));
                }
            }
        }
        i = i + 1;
    }
    proof {
        let got = crate::map::text_map(r@);
        let want = merged_headers(crate::map::text_map(own@), have);
        assert forall|k: Seq<char>| got.contains_key(k) <==> want.contains_key(k) by {
            assert(r@.contains_key(k) <==> got.contains_key(k));
            assert(own@.contains_key(k) <==> keys.contains(k));
            if keys.contains(k) {
                let j = keys.index_of(k);
                assert(keys[j] == k);
            }
        }
        assert forall|k: Seq<char>| got.contains_key(k) implies got[k] == want[k] by {
            assert(r@.contains_key(k));
        }
        assert(got =~= want);
    }
    r
}

proof fn lemma_same_name_reflexive(a: Seq<char>)
    ensures
        same_name(a, a),
{
}

/// What a virtual user brings along takes precedence: its headers go out as they
/// are, and those of the task only under other names.
pub proof fn vuser_headers_take_precedence(
    own: Map<Seq<char>, Seq<char>>,
    extra: Map<Seq<char>, Seq<char>>,
    k: Seq<char>,
)
    ensures
        extra.contains_key(k) ==> merged_headers(own, extra).contains_key(k) && merged_headers(
            own,
            extra,
        )[k] == extra[k],
        merged_headers(own, extra).contains_key(k) && !extra.contains_key(k) ==> own.contains_key(k)
            && !has_name(extra, k),
{
}

/// One request of an agent.
#[derive(Debug)]
pub struct AgentRequest {
    pub task: String,
    pub method: HttpMethod,
    pub url: String,
    pub headers: StringMap<String>,
    pub body: Option<String>,
}

/// The path of a task for a virtual user: its own where it brought one along.
pub open spec fn path_for(config: VUserConfig, task: TaskPlan) -> Seq<char> {
    if config.task_urls@.contains_key(task.name@) {
        config.task_urls@[task.name@]@
    } else {
        task.url@
    }
}

/// The headers that a virtual user brought along for a task.
pub open spec fn extra_for(config: VUserConfig, task: TaskPlan) -> Map<Seq<char>, Seq<char>> {
    if config.task_headers@.contains_key(task.name@) {
        crate::map::text_map(config.task_headers@[task.name@]@)
    } else {
        Map::empty()
    }
}

/// The path of a task for a virtual user.
pub fn task_path(config: &VUserConfig, task: &TaskPlan) -> (p: String)
    ensures
        p@ == path_for(*config, *task),
{
    match config.task_urls.get(task.name.as_str()) {
        Some(url) => url.clone(),
        None => task.url.clone(),
    }
}

/// The path and the headers of request number `idx`: the virtual users take
/// turns, and without any the task is taken as it is.
pub open spec fn is_request_of(
    r: AgentRequest,
    plan: Plan,
    task: TaskPlan,
    idx: u64,
) -> bool {
    let own = crate::map::text_map(task.headers@);
    let n = plan.vuser_configs@.len();
    &&& r.task == task.name
    &&& r.method == match crate::plan::method_named(task.method@) {
        Some(m) => m,
        None => HttpMethod::Get,
    }
    &&& r.body == task.body_template
    &&& n == 0 ==> r.url@ == plan.target_url@ + task.url@ && crate::map::text_map(r.headers@) == own
    &&& n > 0 ==> {
        let config = plan.vuser_configs@[vuser_of(idx as int, n)];
        &&& r.url@ == plan.target_url@ + path_for(config, task)
        &&& crate::map::text_map(r.headers@) == merged_headers(own, extra_for(config, task))
    }
}

/// Request number `idx`, for the given task.
pub fn request_for(plan: &Plan, task: &TaskPlan, idx: u64) -> (r: AgentRequest)
    ensures
        is_request_of(r, *plan, *task, idx),
{
    let method = match HttpMethod::from_name(task.method.as_str()) {
        Some(m) => m,
        None => HttpMethod::Get,
    };
    let body = crate::plan::copy_text(&task.body_template);
    let mut url = plan.target_url.clone();
    let n: usize = plan.vuser_configs.len();
    let headers = if n > 0 {
        let slot: usize = (idx % n as u64) as usize;
        let config = &plan.vuser_configs[slot];
        let path = task_path(config, task);
        url.append(path.as_str());
        match config.task_headers.get(task.name.as_str()) {
            Some(extra) => merge_headers(&task.headers, extra),
            None => {
                let none: StringMap<String> = StringMap::new();
                proof {
                    assert(crate::map::text_map(none@) =~= Map::empty());
                }
                merge_headers(&task.headers, &none)
            },
        }
    } else {
        url.append(task.url.as_str());
        copy_strings(&task.headers)
    };
    AgentRequest { task: task.name.clone(), method, url, headers, body }
}

impl AgentRequest {
    /// The request as it is sent. The type of its body is not stated.
    pub fn to_http(self) -> (q: HttpRequest)
        ensures
            q.method == self.method,
            q.url == self.url,
            q.body == self.body,
            crate::http::is_header_list(
                q.headers@,
                self.headers,
                self.body,
                crate::http::ContentType::Unstated,
            ),
    {
        crate::http::make_request(
            self.method,
            self.url,
            &self.headers,
            self.body,
            crate::http::ContentType::Unstated,
        )
    }
}

// ── Running a shard ───────────────────────────────────────────────────────────

/// The length of a tick, in milliseconds.
pub const TICK_MS: u64 = 50;

/// How many requests may be in flight.
pub const MAX_IN_FLIGHT: usize = 512;

/// The state of a running shard.
#[derive(Debug)]
pub struct Runner {
    pub plan: Plan,
    pub counters: Counters,
    pub budget: RequestBudget,
    /// Length of the run, in nanoseconds.
    pub duration_ns: u128,
    /// Number of the next request.
    pub request_idx: u64,
    /// Start of the current window, in nanoseconds since the start.
    pub window_start: u64,
    /// Requests of the current window.
    pub window_reqs: u64,
}

/// What a tick asks for.
#[derive(Debug)]
pub enum RunnerStep {
    /// The time is over; this is the last report.
    Finished { report: AgentMetrics },
    /// Send these requests. `fired` is how many were due.
    Fire { requests: Vec<AgentRequest>, fired: u64 },
}

/// The target rate of the run.
pub open spec fn runner_rate(r: Runner, now: u64) -> Fraction {
    crate::scheduler::rate_at(profile_of(r.plan), now)
}

/// The requests that are due at a tick.
pub open spec fn due_at(r: Runner, now: u64) -> int {
    (r.budget.rest + crate::budget::parts(runner_rate(r, now), r.budget.unit, TICK_MS))
        / r.budget.scale()
}

/// The task of the request that comes `i` requests after the next one.
pub open spec fn request_task(r: Runner, i: int) -> TaskPlan {
    r.plan.tasks@[crate::scheduler::picked(
        weights(r.plan.tasks@),
        crate::metrics::wrapped(r.request_idx, i as u64) as int,
    )]
}

/// The run with all but its schedule unchanged.
pub open spec fn same_setup(a: Runner, b: Runner) -> bool {
    &&& a.plan == b.plan
    &&& a.duration_ns == b.duration_ns
    &&& a.budget.unit == b.budget.unit
    &&& a.budget.per_sec == b.budget.per_sec
}

impl Runner {
    /// The state is consistent with the plan.
    pub open spec fn wf(self) -> bool {
        &&& self.counters.wf()
        &&& self.budget.wf()
        &&& self.budget.unit == crate::scheduler::rate_unit(profile_of(self.plan))
        &&& self.budget.per_sec == 1000
        &&& crate::scheduler::total_secs(profile_of(self.plan)) <= u64::MAX
        &&& self.duration_ns == crate::number::nanos(
            crate::scheduler::total_secs(profile_of(self.plan)) as u64,
        )
        &&& self.plan.tasks@.len() > 0 ==> 0 < crate::number::total(
            weights(self.plan.tasks@),
        ) <= u32::MAX
    }

    /// A shard before its first tick.
    pub fn new(plan: Plan) -> (r: Runner)
        requires
            crate::scheduler::total_secs(profile_of(plan)) <= u64::MAX,
            plan.tasks@.len() > 0 ==> 0 < crate::number::total(weights(plan.tasks@)) <= u32::MAX,
        ensures
            r.wf(),
            r.plan == plan,
            r.budget.rest == 0,
            r.request_idx == 0,
            r.window_start == 0,
            r.window_reqs == 0,
            r.counters@ == no_calls(),
    {
        let p = profile(&plan);
        let duration_ns: u128 = nanos_of(total_duration(&plan));
        let unit: u128 = p.rate_unit();
        Runner {
            plan,
            counters: Counters::new(),
            budget: RequestBudget::new(unit, 1000),
            duration_ns,
            request_idx: 0,
            window_start: 0,
            window_reqs: 0,
        }
    }

    /// One tick at time `now`, in nanoseconds since the start.
    ///
    /// From the end of the run on there is the last report. Before it, the rate
    /// accrues for one tick and the whole requests go out: tasks by weight, and
    /// virtual users in turn.
    #[verifier::rlimit(50)]
    pub fn tick(&mut self, now: u64) -> (step: RunnerStep)
        requires
            old(self).wf(),
        ensures
            final(self).wf(),
            same_setup(*final(self), *old(self)),
            final(self).counters == old(self).counters,
            final(self).window_start == old(self).window_start,
            step is Finished <==> now >= old(self).duration_ns,
            step matches RunnerStep::Finished { report } ==> {
                &&& report.elapsed_ns == now
                &&& report.current_rps == crate::metrics::whole(0)
                &&& report.target_rps == crate::metrics::whole(old(self).plan.rps as int)
                &&& report.phase@ == "done"@
                &&& reports(report, old(self).counters@)
                &&& final(self).budget == old(self).budget
                &&& final(self).request_idx == old(self).request_idx
                &&& final(self).window_reqs == old(self).window_reqs
            },
            step matches RunnerStep::Fire { requests, fired } ==> {
                &&& fired == due_at(*old(self), now)
                &&& final(self).budget.rest == (old(self).budget.rest + crate::budget::parts(
                    runner_rate(*old(self), now),
                    old(self).budget.unit,
                    TICK_MS,
                )) % old(self).budget.scale()
                &&& requests@.len() == if old(self).plan.tasks@.len() > 0 {
                    fired as nat
                } else {
                    0
                }
                &&& forall|i: int|
                    0 <= i < requests@.len() ==> is_request_of(
                        #[trigger] requests@[i],
                        old(self).plan,
                        request_task(*old(self), i),
                        crate::metrics::wrapped(old(self).request_idx, i as u64),
                    )
                &&& final(self).request_idx == crate::metrics::wrapped(
                    old(self).request_idx,
                    requests@.len() as u64,
                )
                &&& final(self).window_reqs == crate::metrics::wrapped(
                    old(self).window_reqs,
                    fired,
                )
            },
    {
        if now as u128 >= self.duration_ns {
            return RunnerStep::Finished {
                report: self.counters.snapshot(
                    now,
                    Fraction::whole(0),
                    Fraction::whole(self.plan.rps),
                    "done",
                ),
            };
        }
        let rate = compute_target_rps(now, &self.plan);
        proof {
            let p = profile_of(self.plan);
            crate::scheduler::rate_fits_unit(p, now);
            crate::scheduler::rate_is_bounded(p, now);
            let top = p.rps as int;
            let num = rate.num as int;
            let den = rate.den as int;
            assert(num * 50 < u64::MAX * (den * 1000)) by (nonlinear_arith)
                requires
                    0 <= num <= top * den,
                    den > 0,
                    0 <= top <= u64::MAX,
            ;
        }
        let fired: u64 = self.budget.accrue(rate, TICK_MS);
        let ghost start = *self;
        let mut requests: Vec<AgentRequest> = Vec::new();
        if self.plan.tasks.len() > 0 {
            let mut k: u64 = 0;
            while k < fired
                invariant
                    k <= fired,
                    requests@.len() == k,
                    start.wf(),
                    start.plan.tasks@.len() > 0,
                    same_setup(*self, start),
                    self.budget == start.budget,
                    self.counters == start.counters,
                    self.window_start == start.window_start,
                    self.window_reqs == start.window_reqs,
                    self.request_idx == crate::metrics::wrapped(start.request_idx, k),
                    forall|i: int|
                        0 <= i < k ==> is_request_of(
                            #[trigger] requests@[i],
                            start.plan,
                            request_task(start, i),
                            crate::metrics::wrapped(start.request_idx, i as u64),
                        ),
                decreases fired - k,
            {
                let idx: u64 = self.request_idx;
                let task = pick_task(self.plan.tasks.as_slice(), idx);
                let request = request_for(&self.plan, task, idx);
                requests.push(request);
                self.request_idx = self.request_idx.wrapping_add(1);
                k = k + 1;
            }
        }
        self.window_reqs = self.window_reqs.wrapping_add(fired);
        RunnerStep::Fire { requests, fired }
    }

    /// Counts a request that has come back: with a status, or with none where it
    /// failed.
    pub fn request_done(&mut self, latency_ms: u64, status: Option<u16>)
        requires
            old(self).wf(),
        ensures
            final(self).wf(),
            same_setup(*final(self), *old(self)),
            final(self).budget == old(self).budget,
            final(self).request_idx == old(self).request_idx,
            final(self).window_start == old(self).window_start,
            final(self).window_reqs == old(self).window_reqs,
            final(self).counters@ == counted(
                old(self).counters@,
                latency_ms,
                !(status matches Some(s) && s < 400),
            ),
    {
        let is_error = match status {
            Some(s) => crate::http::is_error_status(s),
            None => true,
        };
        self.counters.record(latency_ms, is_error);
    }

    /// The end of a tick that began at `elapsed`. Once a second is over there is
    /// a report of the window, and a new window begins.
    pub fn end_tick(&mut self, elapsed: u64, now: u64) -> (r: Option<AgentMetrics>)
        requires
            old(self).wf(),
            old(self).window_start <= now,
        ensures
            final(self).wf(),
            same_setup(*final(self), *old(self)),
            final(self).budget == old(self).budget,
            final(self).counters == old(self).counters,
            final(self).request_idx == old(self).request_idx,
            r is Some <==> now - old(self).window_start >= 1_000_000_000,
            r is None ==> final(self).window_start == old(self).window_start
                && final(self).window_reqs == old(self).window_reqs,
            r matches Some(report) ==> {
                &&& final(self).window_start == now
                &&& final(self).window_reqs == 0
                &&& report.elapsed_ns == elapsed
                &&& report.current_rps == (Fraction {
                    num: (old(self).window_reqs * 1_000_000_000) as u128,
                    den: (now - old(self).window_start) as u128,
                })
                &&& report.target_rps == runner_rate(*old(self), elapsed)
                &&& report.phase@ == crate::scheduler::phase_name(
                    crate::scheduler::phase_at(profile_of(old(self).plan), elapsed),
                )
                &&& reports(report, old(self).counters@)
            },
    {
        let window: u64 = now - self.window_start;
        if window < 1_000_000_000 {
            return None;
        }
        let current = Fraction::new(self.window_reqs as u128 * 1_000_000_000, window as u128);
        self.window_reqs = 0;
        self.window_start = now;
        let target = compute_target_rps(elapsed, &self.plan);
        let phase = phase_str(elapsed, &self.plan);
        Some(self.counters.snapshot(elapsed, current, target, phase))
    }
}

/// Whether a plan can be run: its length fits in 64 bits, and its tasks, where
/// it has any, have weights that add up to a positive 32-bit number.
pub fn can_run(plan: &Plan) -> (r: bool)
    ensures
        r == (crate::scheduler::total_secs(profile_of(*plan)) <= u64::MAX && (plan.tasks@.len() > 0
            ==> 0 < crate::number::total(weights(plan.tasks@)) <= u32::MAX)),
{
    let ramp = match plan.mode {
        Mode::Ramp => true,
        _ => false,
    };
    if ramp && plan.duration_secs.checked_add(plan.ramp_up_secs).is_none() {
        return false;
    }
    let mut sum: u32 = 0;
    let ghost nats = weights(plan.tasks@);
    let mut i: usize = 0;
    proof {
        assert(nats.take(0) =~= Seq::<nat>::empty());
    }
    while i < plan.tasks.len()
        invariant
            nats == weights(plan.tasks@),
            i <= plan.tasks@.len(),
            sum == crate::number::total(nats.take(i as int)),
            plan.tasks@.len() > 0 || i == 0,
        decreases plan.tasks@.len() - i,
    {
        proof {
            crate::number::total_step(nats, i as int);
            crate::number::total_monotone(nats, i + 1);
        }
        match sum.checked_add(plan.tasks[i].weight) {
            Some(s) => {
                sum = s;
            },
            None => {
                return false;
            },
        }
        i = i + 1;
    }
    proof {
        assert(nats.take(nats.len() as int) =~= nats);
    }
    plan.tasks.len() == 0 || sum > 0
}

// ── Laws of a shard ───────────────────────────────────────────────────────────

/// The shard after ticks at these times, as far as its pace goes.
pub open spec fn after_ticks(r: Runner, times: Seq<u64>) -> Runner
    decreases times.len(),
{
    if times.len() == 0 {
        r
    } else {
        let before = after_ticks(r, times.drop_last());
        let rest = (before.budget.rest + crate::budget::parts(
            runner_rate(before, times.last()),
            before.budget.unit,
            TICK_MS,
        )) % before.budget.scale();
        Runner { budget: RequestBudget { rest: rest as u128, ..before.budget }, ..before }
    }
}

/// The requests that are due at ticks at these times, all together.
pub open spec fn due_during(r: Runner, times: Seq<u64>) -> int
    decreases times.len(),
{
    if times.len() == 0 {
        0
    } else {
        due_during(r, times.drop_last()) + due_at(
            after_ticks(r, times.drop_last()),
            times.last(),
        )
    }
}

/// The rate and the length of each tick.
pub open spec fn pace(r: Runner, times: Seq<u64>) -> Seq<(Fraction, u64)> {
    Seq::new(times.len(), |i: int| (runner_rate(r, times[i]), TICK_MS))
}

/// Tick by tick a shard sends the whole requests that its rate has brought: none
/// is lost between ticks and none comes too early, and less than one request is
/// left over.
pub proof fn shard_keeps_pace(r: Runner, times: Seq<u64>)
    requires
        r.wf(),
    ensures
        due_during(r, times) == (r.budget.rest + crate::budget::due_over(r.budget, pace(r, times)))
            / r.budget.scale(),
        after_ticks(r, times).budget.rest == (r.budget.rest + crate::budget::due_over(
            r.budget,
            pace(r, times),
        )) % r.budget.scale(),
        after_ticks(r, times).budget.rest < r.budget.scale(),
{
    lemma_shard_pace(r, times);
    crate::budget::budget_keeps_pace(r.budget, pace(r, times));
}

proof fn lemma_shard_pace(r: Runner, times: Seq<u64>)
    requires
        r.wf(),
    ensures
        due_during(r, times) == crate::budget::fired_over(r.budget, pace(r, times)),
        after_ticks(r, times).budget.rest == crate::budget::rest_after(r.budget, pace(r, times)),
        after_ticks(r, times).budget.unit == r.budget.unit,
        after_ticks(r, times).budget.per_sec == r.budget.per_sec,
        after_ticks(r, times).plan == r.plan,
    decreases times.len(),
{
    if times.len() > 0 {
        let front = times.drop_last();
        lemma_shard_pace(r, front);
        assert(pace(r, times).drop_last() =~= pace(r, front));
        crate::budget::budget_keeps_pace(r.budget, pace(r, times));
    }
}

/// Under a constant load the ticks of whole seconds send exactly the plan's
/// requests for each of them, however low the rate is.
pub proof fn constant_shard_is_met(r: Runner, times: Seq<u64>, secs: nat)
    requires
        r.wf(),
        r.plan.mode == Mode::Constant,
        r.budget.rest == 0,
        times.len() * TICK_MS == secs * 1000,
    ensures
        due_during(r, times) == r.plan.rps * secs,
        after_ticks(r, times).budget.rest == 0,
{
    lemma_shard_pace(r, times);
    assert(pace(r, times) =~= crate::budget::steady_ticks(r.plan.rps, TICK_MS, times.len()));
    crate::budget::steady_rate_is_met(r.budget, r.plan.rps, TICK_MS, times.len(), secs);
}

/// Of the next requests, as many as the weights add up to, each task gets exactly
/// as many as its weight says, until the numbers of requests start again.
pub proof fn tasks_get_their_shares(r: Runner, i: int)
    requires
        r.wf(),
        0 <= i < r.plan.tasks@.len(),
        r.request_idx + crate::number::total(weights(r.plan.tasks@)) <= u64::MAX,
    ensures
        crate::scheduler::picks(
            weights(r.plan.tasks@),
            r.request_idx as int,
            crate::number::total(weights(r.plan.tasks@)),
            i,
        ) == r.plan.tasks@[i].weight,
{
    crate::scheduler::picks_follow_weights(weights(r.plan.tasks@), r.request_idx as nat, i);
}

/// The virtual user that request number `idx` stands for, of `n`.
pub open spec fn vuser_of(idx: int, n: nat) -> int {
    idx % n as int
}

/// The virtual users take turns: of any `n` requests in a row each of them gets
/// exactly one. The result tells which.
pub proof fn vusers_take_turns(n: nat, start: nat, vuser: int) -> (turn: int)
    requires
        0 <= vuser < n,
    ensures
        0 <= turn < n,
        vuser_of(start + turn, n) == vuser,
        forall|j: int| 0 <= j < n && #[trigger] vuser_of(start + j, n) == vuser ==> j == turn,
{
    let m = n as int;
    let turn = (vuser - start as int) % m;
    vstd::arithmetic::div_mod::lemma_mod_bound(vuser - start as int, m);
    vstd::arithmetic::div_mod::lemma_add_mod_noop(start as int, vuser - start as int, m);
    vstd::arithmetic::div_mod::lemma_add_mod_noop(start as int, turn, m);
    vstd::arithmetic::div_mod::lemma_mod_twice(vuser - start as int, m);
    vstd::arithmetic::div_mod::lemma_small_mod(vuser as nat, n);
    assert((start + turn) % m == vuser);
    assert forall|j: int| 0 <= j < n && #[trigger] vuser_of(start + j, n) == vuser implies j
        == turn by {
        let a = start + j;
        let b = start + turn;
        vstd::arithmetic::div_mod::lemma_fundamental_div_mod(a, m);
        vstd::arithmetic::div_mod::lemma_fundamental_div_mod(b, m);
        let q = a / m - b / m;
        assert(m * (a / m) - m * (b / m) == m * q) by (nonlinear_arith)
            requires
                q == a / m - b / m,
        ;
        assert(j - turn == m * q);
        assert(q == 0) by (nonlinear_arith)
            requires
                -m < m * q < m,
                m > 0,
        ;
    }
    turn
}

/// A header under this name, in any letter case, is among those that the virtual
/// user brought along for the task.
pub open spec fn brought(config: VUserConfig, task: Seq<char>, name: Seq<char>) -> bool {
    config.task_headers@.contains_key(task) && exists|k: Seq<char>| #[trigger]
        config.task_headers@[task]@.contains_key(k) && same_name(k, name)
}

/// Without virtual users a request is that of its task: the same address below
/// the target, and exactly the same headers.
pub proof fn plain_requests_are_their_tasks(r: AgentRequest, plan: Plan, task: TaskPlan, idx: u64)
    requires
        is_request_of(r, plan, task, idx),
        plan.vuser_configs@.len() == 0,
    ensures
        r.task@ == task.name@,
        r.body == task.body_template,
        r.url@ == plan.target_url@ + task.url@,
        r.headers@.dom() == task.headers@.dom(),
        forall|k: Seq<char>| #[trigger]
            task.headers@.contains_key(k) ==> r.headers@[k]@ == task.headers@[k]@,
{
    let got = crate::map::text_map(r.headers@);
    let own = crate::map::text_map(task.headers@);
    assert(got.dom() =~= r.headers@.dom());
    assert(own.dom() =~= task.headers@.dom());
    assert forall|k: Seq<char>| #[trigger] task.headers@.contains_key(k) implies r.headers@[k]@
        == task.headers@[k]@ by {
        assert(own.contains_key(k));
        assert(got.contains_key(k));
        assert(r.headers@.contains_key(k));
        assert(got[k] == own[k]);
    }
}

/// A request that stands for a virtual user carries the headers of its task, each
/// with its value, except those that the virtual user brought along in its own
/// form; these go out as they are, and there are no others. Its path is that of
/// the virtual user where it brought one along.
pub proof fn requests_carry_their_headers(
    r: AgentRequest,
    plan: Plan,
    task: TaskPlan,
    idx: u64,
    k: Seq<char>,
)
    requires
        is_request_of(r, plan, task, idx),
        plan.vuser_configs@.len() > 0,
    ensures
        ({
            let config = plan.vuser_configs@[idx as int % plan.vuser_configs@.len() as int];
            let extra = config.task_headers@[task.name@]@;
            let has_extra = config.task_headers@.contains_key(task.name@) && extra.contains_key(k);
            &&& r.task@ == task.name@
            &&& r.body == task.body_template
            &&& config.task_urls@.contains_key(task.name@) ==> r.url@ == plan.target_url@
                + config.task_urls@[task.name@]@
            &&& !config.task_urls@.contains_key(task.name@) ==> r.url@ == plan.target_url@
                + task.url@
            &&& task.headers@.contains_key(k) && !brought(config, task.name@, k)
                ==> r.headers@.contains_key(k) && r.headers@[k]@ == task.headers@[k]@
            &&& has_extra ==> r.headers@.contains_key(k) && r.headers@[k]@ == extra[k]@
            &&& r.headers@.contains_key(k) ==> has_extra || (task.headers@.contains_key(k)
                && !brought(config, task.name@, k))
        }),
{
    let config = plan.vuser_configs@[idx as int % plan.vuser_configs@.len() as int];
    let extra = extra_for(config, task);
    let own = crate::map::text_map(task.headers@);
    let got = crate::map::text_map(r.headers@);
    assert(got.contains_key(k) <==> r.headers@.contains_key(k));
    assert(own.contains_key(k) <==> task.headers@.contains_key(k));
    assert(has_name(extra, k) <==> brought(config, task.name@, k)) by {
        if config.task_headers@.contains_key(task.name@) {
            let mine = config.task_headers@[task.name@]@;
            if has_name(extra, k) {
                let x = choose|x: Seq<char>| #[trigger] extra.contains_key(x) && same_name(x, k);
                assert(mine.contains_key(x));
            }
            if brought(config, task.name@, k) {
                let x = choose|x: Seq<char>| #[trigger] mine.contains_key(x) && same_name(x, k);
                assert(extra.contains_key(x));
            }
        }
    }
    if got.contains_key(k) {
        assert(got[k] == r.headers@[k]@);
    }
    lemma_same_name_reflexive(k);
}

/// A request uses the method that its task names, and GET where the task names
/// none that is known.
pub proof fn requests_use_their_methods(r: AgentRequest, plan: Plan, task: TaskPlan, idx: u64)
    requires
        is_request_of(r, plan, task, idx),
    ensures
        task.method@ == "GET"@ ==> r.method == HttpMethod::Get,
        task.method@ == "POST"@ ==> r.method == HttpMethod::Post,
        task.method@ == "PUT"@ ==> r.method == HttpMethod::Put,
        task.method@ == "PATCH"@ ==> r.method == HttpMethod::Patch,
        task.method@ == "DELETE"@ ==> r.method == HttpMethod::Delete,
        r.method != HttpMethod::Get ==> task.method@ == "POST"@ || task.method@ == "PUT"@
            || task.method@ == "PATCH"@ || task.method@ == "DELETE"@,
{
    crate::plan::methods_go_by_their_names(task.method@);
}

/// Two names are the same exactly where they differ at most in the case of ASCII
/// letters.
pub proof fn header_names_ignore_case(a: Seq<char>, b: Seq<char>)
    ensures
        same_name(a, b) <==> a.len() == b.len() && forall|i: int|
            0 <= i < a.len() ==> {
                ||| (#[trigger] a[i]) == b[i]
                ||| 'A' <= a[i] <= 'Z' && b[i] as u32 == a[i] as u32 + 32
                ||| 'A' <= b[i] <= 'Z' && a[i] as u32 == b[i] as u32 + 32
            },
{
    assert forall|x: char, y: char| #[trigger] ascii_lower(x) == #[trigger] ascii_lower(y) <==> {
        ||| x == y
        ||| 'A' <= x <= 'Z' && y as u32 == x as u32 + 32
        ||| 'A' <= y <= 'Z' && x as u32 == y as u32 + 32
    } by {}
    if a.len() == b.len() && forall|i: int|
        0 <= i < a.len() ==> {
            ||| (#[trigger] a[i]) == b[i]
            ||| 'A' <= a[i] <= 'Z' && b[i] as u32 == a[i] as u32 + 32
            ||| 'A' <= b[i] <= 'Z' && a[i] as u32 == b[i] as u32 + 32
        } {
        assert forall|i: int| 0 <= i < a.len() implies ascii_lower(#[trigger] a[i]) == ascii_lower(
            b[i],
        ) by {}
    }
    if same_name(a, b) {
        assert forall|i: int| 0 <= i < a.len() implies {
            ||| (#[trigger] a[i]) == b[i]
            ||| 'A' <= a[i] <= 'Z' && b[i] as u32 == a[i] as u32 + 32
            ||| 'A' <= b[i] <= 'Z' && a[i] as u32 == b[i] as u32 + 32
        } by {
            assert(ascii_lower(a[i]) == ascii_lower(b[i]));
        }
    }
}

/// The report of an agent describes the latencies of its calls, and its pairs hold
/// each bucket that has a count once, in order: with the number of latencies of
/// that many milliseconds, and in the last one of all from ten seconds on.
pub proof fn agent_report_describes_calls(m: AgentMetrics, calls: Seq<Call>)
    requires
        0 < calls.len() <= u64::MAX,
        reports(m, all_counted(no_calls(), calls)),
    ensures
        m.agent_id@.len() == 0,
        m.active_workers == 0,
        m.requests_total == calls.len(),
        m.errors_total == failures(calls),
        crate::report_laws::describes(m.latency, latencies(calls)),
        forall|i: int, j: int|
            0 <= i < j < m.histogram_buckets@.len() ==> (#[trigger] m.histogram_buckets@[i])@[0] < (
            #[trigger] m.histogram_buckets@[j])@[0],
        forall|i: int|
            0 <= i < m.histogram_buckets@.len() ==> {
                let ms = (#[trigger] m.histogram_buckets@[i])@[0];
                let n = m.histogram_buckets@[i]@[1];
                let ls = latencies(calls);
                &&& ms <= 10_000
                &&& n > 0
                &&& ms < 10_000 ==> n == crate::report_laws::at_most(ls, ms as int)
                    - crate::report_laws::at_most(ls, ms - 1)
                &&& ms == 10_000 ==> n == ls.len() - crate::report_laws::at_most(ls, 9_999)
            },
        forall|ms: int| #[trigger]
            crate::fleet_laws::counted_at_most(m.histogram_buckets@, ms)
                == crate::report_laws::at_most(latencies(calls), ms) || ms >= 10_000 || ms < 0,
{
    let ls = latencies(calls);
    let h = crate::histogram_laws::histogram_of(ls);
    let es = m.histogram_buckets@;
    reveal_strlit("");
    lemma_counted_histogram(no_calls(), calls);
    lemma_counted_errors(calls);
    crate::histogram_laws::histogram_counts(ls);
    crate::report_laws::histogram_report_describes_latencies(ls);
    lemma_sparse_pairs(es, h.buckets);
    assert forall|i: int| 0 <= i < es.len() implies {
        let ms = (#[trigger] es[i])@[0];
        let n = es[i]@[1];
        &&& ms <= 10_000
        &&& n > 0
        &&& ms < 10_000 ==> n == crate::report_laws::at_most(ls, ms as int)
            - crate::report_laws::at_most(ls, ms - 1)
        &&& ms == 10_000 ==> n == ls.len() - crate::report_laws::at_most(ls, 9_999)
    } by {
        let ms = es[i]@[0] as int;
        assert(h.buckets[ms] == crate::histogram_laws::count_at(ls, ms));
        if ms < 10_000 {
            crate::report_laws::at_most_step(ls, ms);
        } else {
            crate::report_laws::at_most_rest(ls);
        }
    }
    assert forall|ms: int| #[trigger]
        crate::fleet_laws::counted_at_most(es, ms) == crate::report_laws::at_most(ls, ms) || ms
            >= 10_000 || ms < 0 by {
        if 0 <= ms < 10_000 {
            lemma_counted_like(es, ls, ms);
        }
    }
}

proof fn lemma_counted_like(es: Seq<[u64; 2]>, ls: Seq<u64>, ms: int)
    requires
        ls.len() <= u64::MAX,
        pairs(es) == sparse(crate::histogram_laws::histogram_of(ls).buckets),
        -1 <= ms < 10_000,
    ensures
        crate::fleet_laws::counted_at_most(es, ms) == crate::report_laws::at_most(ls, ms),
    decreases ms + 1,
{
    crate::histogram_laws::histogram_counts(ls);
    if ms == -1 {
        crate::fleet_laws::counted_nothing(es);
        crate::report_laws::at_most_nothing(ls);
    } else {
        lemma_counted_like(es, ls, ms - 1);
        crate::fleet_laws::counted_step(es, ms);
        crate::report_laws::at_most_step(ls, ms);
        let h = crate::histogram_laws::histogram_of(ls);
        reported_buckets_are_complete(es, h.buckets, ms);
        assert(h.buckets[ms] == crate::histogram_laws::count_at(ls, ms));
    }
}

proof fn lemma_sparse_pairs(es: Seq<[u64; 2]>, counts: Seq<u64>)
    requires
        counts.len() <= crate::metrics::BUCKETS,
        pairs(es) == sparse(counts),
    ensures
        forall|i: int, j: int|
            0 <= i < j < es.len() ==> (#[trigger] es[i])@[0] < (#[trigger] es[j])@[0],
        forall|i: int|
            0 <= i < es.len() ==> (#[trigger] es[i])@[0] < counts.len() && es[i]@[1] > 0
                && es[i]@[1] == counts[es[i]@[0] as int],
    decreases counts.len(),
{
    assert(pairs(es).len() == es.len());
    if counts.len() > 0 {
        let front = counts.drop_last();
        if counts.last() > 0 {
            let few = es.drop_last();
            assert(pairs(es).last() == es.last()@);
            assert(pairs(few) =~= pairs(es).drop_last());
            assert(sparse(counts).drop_last() =~= sparse(front));
            lemma_sparse_pairs(few, front);
            assert forall|i: int| 0 <= i < few.len() implies #[trigger] es[i] == few[i] by {}
            assert(es[es.len() - 1] == es.last());
        } else {
            lemma_sparse_pairs(es, front);
        }
    }
}

/// A shard is run with its own numbers.
pub proof fn profiles_are_their_plans(plan: Plan)
    ensures
        profile_of(plan).mode == plan.mode,
        profile_of(plan).rps == plan.rps,
        profile_of(plan).duration_secs == plan.duration_secs,
        profile_of(plan).ramp_up_secs == plan.ramp_up_secs,
        profile_of(plan).steps == plan.steps,
{
}

/// Each request is made for the task whose slot of the round it falls on.
pub proof fn requests_go_through_the_slots(r: Runner, i: int, t: int)
    requires
        r.wf(),
        0 <= i,
        r.request_idx + i <= u64::MAX,
        0 <= t < r.plan.tasks@.len(),
        crate::number::total(weights(r.plan.tasks@).take(t)) <= (r.request_idx + i)
            % (crate::number::total(weights(r.plan.tasks@)) as int)
            < crate::number::total(weights(r.plan.tasks@).take(t)) + r.plan.tasks@[t].weight,
    ensures
        request_task(r, i) == r.plan.tasks@[t],
{
    crate::scheduler::picks_go_through_the_slots(weights(r.plan.tasks@), r.request_idx + i, t);
}

/// What a tick sends and keeps is what was kept before and what the rate of that
/// moment brings in a twentieth of a second; measured in parts, of which a request
/// has `scale` and a second at one request a second brings as many.
pub proof fn ticks_lose_nothing(r: Runner, now: u64, rest: int)
    requires
        r.wf(),
        rest == (r.budget.rest + crate::budget::parts(runner_rate(r, now), r.budget.unit, TICK_MS))
            % r.budget.scale(),
    ensures
        ({
            let rate = crate::scheduler::rate_at(profile_of(r.plan), now);
            let scale = r.budget.unit * 1000;
            let brought = due_at(r, now) * scale + rest - r.budget.rest;
            &&& brought * (rate.den * 1000) == rate.num * 50 * scale
            &&& 0 <= rest < scale
        }),
{
    let rate = runner_rate(r, now);
    crate::scheduler::rate_fits_unit(profile_of(r.plan), now);
    crate::budget::accrual_follows_the_rate(r.budget, rate, TICK_MS);
    let scale = r.budget.scale();
    let x = r.budget.rest + crate::budget::parts(rate, r.budget.unit, TICK_MS);
    vstd::arithmetic::div_mod::lemma_fundamental_div_mod(x, scale);
    vstd::arithmetic::div_mod::lemma_mod_bound(x, scale);
    assert(scale * (x / scale) == (x / scale) * scale) by (nonlinear_arith);
}

/// A shard takes as long as its plan says: the duration, and the ramp-up on top of
/// it where there is one.
pub proof fn shards_last_as_planned(r: Runner)
    requires
        r.wf(),
    ensures
        r.plan.mode == Mode::Ramp ==> r.duration_ns == (r.plan.duration_secs + r.plan.ramp_up_secs)
            * 1_000_000_000,
        r.plan.mode != Mode::Ramp ==> r.duration_ns == r.plan.duration_secs * 1_000_000_000,
{
}

/// The plan of a running shard and its length never change.
pub proof fn shards_keep_their_plan(a: Runner, b: Runner)
    requires
        same_setup(a, b),
    ensures
        a.plan == b.plan,
        a.duration_ns == b.duration_ns,
        a.budget.unit == b.budget.unit,
        a.budget.per_sec == b.budget.per_sec,
{
}

/// The model of the counters is what they hold.
pub proof fn counters_are_their_model(c: Counters)
    ensures
        c@.histogram.buckets == c.histogram.buckets@,
        c@.histogram.count == c.histogram.count,
        c@.histogram.sum_ms == c.histogram.sum_ms,
        c@.histogram.max_ms == c.histogram.max_ms,
        c@.histogram.min_ms == c.histogram.min_ms,
        c@.errors_total == c.errors_total,
        c@.window_requests == c.window_requests,
{
}

} // verus!

//! Messages between coordinator and agents, their subjects, and the
//! aggregation of the agents' metrics.
use crate::coordinator::MetricsSnapshot;
use crate::map::StringMap;
use crate::metrics::percentile_in;
use crate::metrics::share;
use crate::metrics::LatencySnapshot;
use crate::metrics::TaskSnapshot;
use crate::metrics::BUCKETS;
use crate::metrics::MAX_LATENCY_MS;
use crate::number::Fraction;
use crate::plan::ScenarioPlan;
use crate::scheduler::Phase;
use crate::text::same_text;
use vstd::prelude::*;

verus! {

// ── Subjects ──────────────────────────────────────────────────────────────────

/// The subject on which agents announce themselves.
pub fn subject_register() -> (s: &'static str)
    ensures
        s@ == "loadpilot.register"@,
{
    "loadpilot.register"
}

/// The subject on which an agent gets its shard of the plan.
pub open spec fn shard_subject(agent_id: Seq<char>) -> Seq<char> {
    "loadpilot.shard."@ + agent_id
}

/// The subject on which an agent gets its shard of the plan.
pub fn subject_shard(agent_id: &str) -> (s: String)
    ensures
        s@ == shard_subject(agent_id@),
{
    let mut s = "loadpilot.shard.".to_string();
    s.append(agent_id);
    s
}

/// The pattern for the metrics of all agents.
pub fn subject_metrics() -> (s: &'static str)
    ensures
        s@ == "loadpilot.metrics.>"@,
{
    "loadpilot.metrics.>"
}

/// The subject on which all agents get commands.
pub fn subject_control() -> (s: &'static str)
    ensures
        s@ == "loadpilot.control"@,
{
    "loadpilot.control"
}

// ── Messages ──────────────────────────────────────────────────────────────────

/// An agent announces itself.
#[derive(Debug)]
pub struct RegisterMsg {
    pub agent_id: String,
}

/// An agent's part of the plan.
#[derive(Debug)]
pub struct ShardMsg {
    pub agent_id: String,
    pub plan: ScenarioPlan,
    /// Wall-clock time, in milliseconds since the epoch, at which all agents
    /// start together.
    pub start_at_unix_ms: u64,
}

/// A command to all agents.
#[derive(Debug)]
pub struct ControlMsg {
    pub command: String,
}

/// The latencies that an agent reports, in picoseconds.
#[derive(Clone, Copy, Debug, PartialEq, Eq, Structural)]
pub struct WireLatency {
    pub p50_ps: u64,
    pub p95_ps: u64,
    pub p99_ps: u64,
    pub max_ps: u64,
    pub min_ps: u64,
    pub mean_ps: u64,
}

impl Default for WireLatency {
    fn default() -> (l: WireLatency)
        ensures
            l == (WireLatency {
                p50_ps: 0,
                p95_ps: 0,
                p99_ps: 0,
                max_ps: 0,
                min_ps: 0,
                mean_ps: 0,
            }),
    {
        WireLatency { p50_ps: 0, p95_ps: 0, p99_ps: 0, max_ps: 0, min_ps: 0, mean_ps: 0 }
    }
}

/// What an agent reports of one task.
#[derive(Debug)]
pub struct TaskWireSnapshot {
    pub name: String,
    pub requests: u64,
    pub errors: u64,
    pub latency: WireLatency,
    /// Pairs of a bucket, in milliseconds, and its count.
    pub histogram_buckets: Vec<[u64; 2]>,
}

/// What an agent reports.
#[derive(Debug)]
pub struct AgentMetricsMsg {
    pub agent_id: String,
    pub elapsed_ns: u64,
    /// Billionths of a request per second.
    pub current_nano_rps: u64,
    /// Billionths of a request per second.
    pub target_nano_rps: u64,
    pub requests_total: u64,
    pub errors_total: u64,
    pub active_workers: u64,
    pub phase: String,
    pub latency: WireLatency,
    /// Pairs of a bucket, in milliseconds, and its count.
    pub histogram_buckets: Vec<[u64; 2]>,
    pub task_snapshots: Vec<TaskWireSnapshot>,
}

/// The metrics of all agents together.
#[derive(Debug)]
pub struct AggregatedSnapshot {
    pub timestamp_ns: u64,
    pub elapsed_ns: u64,
    pub current_rps: Fraction,
    pub target_rps: Fraction,
    pub requests_total: u64,
    pub errors_total: u64,
    pub active_workers: u64,
    pub phase: String,
    pub latency: LatencySnapshot,
    pub tasks: Vec<TaskSnapshot>,
}

/// The highest bucket of a merged histogram.
pub const MAX_BUCKET: u64 = 10_000;

// ── Merged histograms ─────────────────────────────────────────────────────────

/// How much the pairs count for bucket `b`.
pub open spec fn count_in(entries: Seq<[u64; 2]>, b: int) -> nat
    decreases entries.len(),
{
    if entries.len() == 0 {
        0
    } else {
        count_in(entries.drop_last(), b) + (if crate::metrics::bucket_of(entries.last()@[0]) == b {
            entries.last()@[1] as nat
        } else {
            0
        })
    }
}

/// The histogram with the given counts.
pub open spec fn histogram_with(count: spec_fn(int) -> nat) -> Seq<u64> {
    Seq::new(BUCKETS as nat, |b: int| count(b) as u64)
}

/// The highest bucket with a count, or 0 when there is none.
pub open spec fn highest(counts: Seq<u64>) -> int
    decreases counts.len(),
{
    if counts.len() == 0 {
        0
    } else if counts.last() > 0 {
        counts.len() - 1
    } else {
        highest(counts.drop_last())
    }
}

/// The lowest bucket with a count, or 0 when there is none.
pub open spec fn lowest(counts: Seq<u64>) -> int {
    let i = crate::metrics::reach(counts, 1);
    if i < counts.len() {
        i
    } else {
        0
    }
}

/// An empty histogram.
fn empty_buckets() -> (v: Vec<u64>)
    ensures
        v@.len() == BUCKETS,
        forall|b: int| 0 <= b < BUCKETS ==> #[trigger] v@[b] == 0,
{
    let mut v: Vec<u64> = Vec::with_capacity(BUCKETS);
    let mut i: usize = 0;
    while i < BUCKETS
        invariant
            i <= BUCKETS,
            v@.len() == i,
            forall|b: int| 0 <= b < i ==> #[trigger] v@[b] == 0,
        decreases BUCKETS - i,
    {
        v.push(0);
        i = i + 1;
    }
    v
}

proof fn lemma_count_in_take(entries: Seq<[u64; 2]>, k: int, b: int)
    requires
        0 <= k <= entries.len(),
    ensures
        count_in(entries.take(k), b) <= count_in(entries, b),
    decreases entries.len() - k,
{
    if k < entries.len() {
        lemma_count_in_take(entries, k + 1, b);
        assert(entries.take(k + 1).drop_last() =~= entries.take(k));
    } else {
        assert(entries.take(k) =~= entries);
    }
}

/// Adding the pairs to the counts overflows no bucket.
pub open spec fn merge_fits(counts: Seq<u64>, entries: Seq<[u64; 2]>) -> bool {
    forall|b: int|
        0 <= b < BUCKETS ==> #[trigger] counts[b] + count_in(entries, b) <= u64::MAX
}

/// Adds the pairs to a histogram. Says whether every bucket could take them; if
/// one could not, the histogram is of no use any more.
pub fn merge_buckets(merged: &mut Vec<u64>, entries: &Vec<[u64; 2]>) -> (r: bool)
    requires
        old(merged)@.len() == BUCKETS,
    ensures
        final(merged)@.len() == BUCKETS,
        r == merge_fits(old(merged)@, entries@),
        r ==> forall|b: int|
            0 <= b < BUCKETS ==> #[trigger] final(merged)@[b] == old(merged)@[b] + count_in(
                entries@,
                b,
            ),
{
    let ghost start = merged@;
    let mut i: usize = 0;
    proof {
        assert(entries@.take(0) =~= Seq::<[u64; 2]>::empty());
    }
    while i < entries.len()
        invariant
            i <= entries@.len(),
            merged@.len() == BUCKETS,
            start.len() == BUCKETS,
            start == old(merged)@,
            forall|b: int|
                0 <= b < BUCKETS ==> #[trigger] merged@[b] == start[b] + count_in(
                    entries@.take(i as int),
                    b,
                ),
        decreases entries@.len() - i,
    {
        let entry: [u64; 2] = entries[i];
        let idx: u64 = entry[0];
        let count: u64 = entry[1];
        let at: usize = if idx < MAX_LATENCY_MS {
            idx as usize
        } else {
            MAX_LATENCY_MS as usize
        };
        let ghost before = merged@;
        proof {
            assert(entries@.take(i + 1).drop_last() =~= entries@.take(i as int));
            assert(entries@.take(i + 1).last() == entry);
            lemma_count_in_take(entries@, i + 1, at as int);
            assert(before[at as int] + count == start[at as int] + count_in(
                entries@.take(i + 1),
                at as int,
            ));
        }
        match merged[at].checked_add(count) {
            Some(sum) => {
                merged.set(at, sum);
            },
            None => {
                proof {
                    assert(start[at as int] + count_in(entries@, at as int) > u64::MAX);
                }
                return false;
            },
        }
        proof {
            assert forall|b: int| 0 <= b < BUCKETS implies #[trigger] merged@[b] == start[b]
                + count_in(entries@.take(i + 1), b) by {
                assert(before[b] == start[b] + count_in(entries@.take(i as int), b));
            }
        }
        i = i + 1;
    }
    proof {
        assert(entries@.take(entries@.len() as int) =~= entries@);
        assert forall|b: int| 0 <= b < BUCKETS implies #[trigger] start[b] + count_in(entries@, b)
            <= u64::MAX by {
            assert(merged@[b] == start[b] + count_in(entries@, b));
        }
    }
    true
}

/// The bucket at which the share `p` of `total` requests is reached.
pub fn percentile_from_merged(buckets: &Vec<u64>, total: u64, p: Fraction) -> (r: u64)
    requires
        buckets@.len() == BUCKETS,
        crate::metrics::is_small(p),
    ensures
        r == crate::metrics::percentile_of(buckets@, total, p),
        r <= MAX_BUCKET,
{
    percentile_in(buckets, total, p)
}

/// The highest bucket with a count.
fn highest_bucket(buckets: &Vec<u64>) -> (r: u64)
    requires
        buckets@.len() == BUCKETS,
    ensures
        r == highest(buckets@),
{
    let mut n: usize = buckets.len();
    proof {
        assert(buckets@.take(n as int) =~= buckets@);
    }
    while n > 0
        invariant
            n <= buckets@.len() == BUCKETS,
            highest(buckets@.take(n as int)) == highest(buckets@),
        decreases n,
    {
        proof {
            assert(buckets@.take(n as int).drop_last() =~= buckets@.take(n - 1));
        }
        if buckets[n - 1] > 0 {
            return (n - 1) as u64;
        }
        n = n - 1;
    }
    0
}

/// The lowest bucket with a count.
fn lowest_bucket(buckets: &Vec<u64>) -> (r: u64)
    requires
        buckets@.len() == BUCKETS,
    ensures
        r == lowest(buckets@),
{
    let mut i: usize = 0;
    proof {
        assert(buckets@.skip(0) =~= buckets@);
    }
    while i < buckets.len()
        invariant
            i <= buckets@.len() == BUCKETS,
            crate::metrics::reach(buckets@, 1) == i + crate::metrics::reach(
                buckets@.skip(i as int),
                1,
            ),
        decreases buckets@.len() - i,
    {
        proof {
            assert(buckets@.skip(i as int)[0] == buckets@[i as int]);
            assert(buckets@.skip(i as int).drop_first() =~= buckets@.skip(i + 1));
        }
        if buckets[i] > 0 {
            return i as u64;
        }
        i = i + 1;
    }
    0
}

// ── Tasks of all agents ───────────────────────────────────────────────────────

/// The task reports of all agents, one after the other.
pub open spec fn all_tasks(snapshots: Seq<AgentMetricsMsg>) -> Seq<TaskWireSnapshot>
    decreases snapshots.len(),
{
    if snapshots.len() == 0 {
        seq![]
    } else {
        all_tasks(snapshots.drop_last()) + snapshots.last().task_snapshots@
    }
}

/// The reports of the task `name`.
pub open spec fn named(ts: Seq<TaskWireSnapshot>, name: Seq<char>) -> Seq<TaskWireSnapshot>
    decreases ts.len(),
{
    if ts.len() == 0 {
        seq![]
    } else if ts.last().name@ == name {
        named(ts.drop_last(), name).push(ts.last())
    } else {
        named(ts.drop_last(), name)
    }
}

/// The requests of the reports.
pub open spec fn task_requests(ts: Seq<TaskWireSnapshot>) -> nat {
    crate::number::total(ts.map_values(|t: TaskWireSnapshot| t.requests as nat))
}

/// The errors of the reports.
pub open spec fn task_errors(ts: Seq<TaskWireSnapshot>) -> nat {
    crate::number::total(ts.map_values(|t: TaskWireSnapshot| t.errors as nat))
}

/// The sum of the latencies of the reports, in picoseconds.
pub open spec fn task_weight(ts: Seq<TaskWireSnapshot>) -> nat {
    crate::number::total(
        ts.map_values(|t: TaskWireSnapshot| (t.latency.mean_ps * t.requests) as nat),
    )
}

/// What the reports count for bucket `b`.
pub open spec fn task_count(ts: Seq<TaskWireSnapshot>, b: int) -> nat {
    crate::number::total(
        ts.map_values(|t: TaskWireSnapshot| count_in(t.histogram_buckets@, b)),
    )
}

/// The merged histogram of the reports.
pub open spec fn task_histogram(ts: Seq<TaskWireSnapshot>) -> Seq<u64> {
    histogram_with(|b: int| task_count(ts, b))
}

/// The sums of the reports of each task fit in 64 bits.
pub open spec fn tasks_fit(ts: Seq<TaskWireSnapshot>) -> bool {
    forall|name: Seq<char>| sums_fit(#[trigger] named(ts, name))
}

/// The sums of the reports fit in 64 bits.
pub open spec fn sums_fit(mine: Seq<TaskWireSnapshot>) -> bool {
    &&& task_requests(mine) <= u64::MAX
    &&& task_errors(mine) <= u64::MAX
    &&& forall|b: int| 0 <= b < BUCKETS ==> #[trigger] task_count(mine, b) <= u64::MAX
}

/// The mean latency in milliseconds, of a sum in picoseconds.
pub open spec fn mean_ms(weight: nat, requests: nat) -> Fraction {
    if requests == 0 {
        Fraction { num: 0, den: 1 }
    } else {
        Fraction { num: weight as u128, den: (requests * 1_000_000_000) as u128 }
    }
}

/// `s` is the merged report of `mine`, which are the reports of one task.
pub open spec fn is_merged_task(s: TaskSnapshot, mine: Seq<TaskWireSnapshot>) -> bool {
    let counts = task_histogram(mine);
    let n = task_requests(mine) as u64;
    &&& s.requests == task_requests(mine)
    &&& s.errors == task_errors(mine)
    &&& s.latency == LatencySnapshot {
        p50_ms: crate::metrics::whole(
            crate::metrics::percentile_of(counts, n, crate::metrics::percent(50)),
        ),
        p95_ms: crate::metrics::whole(
            crate::metrics::percentile_of(counts, n, crate::metrics::percent(95)),
        ),
        p99_ms: crate::metrics::whole(
            crate::metrics::percentile_of(counts, n, crate::metrics::percent(99)),
        ),
        max_ms: crate::metrics::whole(highest(counts)),
        min_ms: crate::metrics::whole(lowest(counts)),
        mean_ms: mean_ms(task_weight(mine), task_requests(mine)),
    }
}

/// `tasks` are the merged reports of `ts`: one for each task, in the order of
/// their names.
pub open spec fn are_merged_tasks(tasks: Seq<TaskSnapshot>, ts: Seq<TaskWireSnapshot>) -> bool {
    &&& forall|i: int, j: int|
        0 <= i < j < tasks.len() ==> crate::text::text_less(
            (#[trigger] tasks[i]).name@,
            (#[trigger] tasks[j]).name@,
        )
    &&& forall|i: int|
        0 <= i < tasks.len() ==> named(ts, (#[trigger] tasks[i]).name@).len() > 0
            && is_merged_task(tasks[i], named(ts, tasks[i].name@))
    &&& forall|name: Seq<char>|
        (#[trigger] named(ts, name)).len() > 0 ==> exists|i: int|
            0 <= i < tasks.len() && (#[trigger] tasks[i]).name@ == name
}

/// The sums of one task while its reports are merged.
#[derive(Debug)]
struct TaskSum {
    buckets: Vec<u64>,
    requests: u64,
    errors: u64,
    weight: u128,
}

impl TaskSum {
    /// The sums of the reports `mine`.
    closed spec fn holds(self, mine: Seq<TaskWireSnapshot>) -> bool {
        &&& self.buckets@.len() == BUCKETS
        &&& forall|b: int|
            0 <= b < BUCKETS ==> #[trigger] self.buckets@[b] == task_count(mine, b)
        &&& self.requests == task_requests(mine)
        &&& self.errors == task_errors(mine)
        &&& self.weight == task_weight(mine)
    }

    fn new() -> (s: TaskSum)
        ensures
            s.holds(seq![]),
    {
        let s = TaskSum { buckets: empty_buckets(), requests: 0, errors: 0, weight: 0 };
        proof {
            let e = Seq::<TaskWireSnapshot>::empty();
            assert(e.map_values(|t: TaskWireSnapshot| t.requests as nat) =~= Seq::<nat>::empty());
            assert(e.map_values(|t: TaskWireSnapshot| t.errors as nat) =~= Seq::<nat>::empty());
            assert(e.map_values(|t: TaskWireSnapshot| (t.latency.mean_ps * t.requests) as nat)
                =~= Seq::<nat>::empty());
            assert forall|b: int| 0 <= b < BUCKETS implies #[trigger] s.buckets@[b] == task_count(
                e,
                b,
            ) by {
                assert(e.map_values(|t: TaskWireSnapshot| count_in(t.histogram_buckets@, b))
                    =~= Seq::<nat>::empty());
            }
        }
        s
    }

    /// Adds one more report. Says whether the sums still fit.
    fn add_report(
        &mut self,
        t: &TaskWireSnapshot,
        Ghost(mine): Ghost<Seq<TaskWireSnapshot>>,
    ) -> (r: bool)
        requires
            old(self).holds(mine),
        ensures
            r == sums_fit(mine.push(*t)),
            r ==> final(self).holds(mine.push(*t)),
    {
        let ghost more = mine.push(*t);
        let ghost before = self.buckets@;
        proof {
            lemma_task_sums_push(mine, *t);
            lemma_weight_bound(mine);
            assert forall|b: int| 0 <= b < BUCKETS implies #[trigger] task_count(more, b)
                == before[b] + count_in(t.histogram_buckets@, b) by {
                lemma_task_count_push(mine, *t, b);
                assert(before[b] == task_count(mine, b));
            }
            assert(0 <= t.latency.mean_ps * t.requests <= 0xffff_ffff_ffff_ffff * t.requests)
                by (nonlinear_arith)
                requires
                    0 <= t.latency.mean_ps <= 0xffff_ffff_ffff_ffff,
                    0 <= t.requests,
            ;
        }
        let merged = merge_buckets(&mut self.buckets, &t.histogram_buckets);
        if !merged {
            proof {
                let b = choose|b: int|
                    0 <= b < BUCKETS && #[trigger] before[b] + count_in(t.histogram_buckets@, b)
                        > u64::MAX;
                assert(task_count(more, b) > u64::MAX);
            }
            return false;
        }
        let requests: u64 = match self.requests.checked_add(t.requests) {
            Some(n) => n,
            None => {
                return false;
            },
        };
        let errors: u64 = match self.errors.checked_add(t.errors) {
            Some(n) => n,
            None => {
                return false;
            },
        };
        self.requests = requests;
        self.errors = errors;
        self.weight = self.weight + t.latency.mean_ps as u128 * t.requests as u128;
        proof {
            assert forall|b: int| 0 <= b < BUCKETS implies #[trigger] self.buckets@[b]
                == task_count(more, b) by {
                assert(before[b] + count_in(t.histogram_buckets@, b) == task_count(more, b));
            }
            assert forall|b: int| 0 <= b < BUCKETS implies #[trigger] task_count(more, b)
                <= u64::MAX by {
                assert(self.buckets@[b] == task_count(more, b));
            }
        }
        true
    }

    fn snapshot(&self, name: String, Ghost(mine): Ghost<Seq<TaskWireSnapshot>>) -> (s: TaskSnapshot)
        requires
            self.holds(mine),
        ensures
            s.name@ == name@,
            is_merged_task(s, mine),
    {
        proof {
            assert(self.buckets@ =~= task_histogram(mine));
            assert(self.requests * 1_000_000_000 <= u128::MAX);
        }
        let mean = if self.requests > 0 {
            Fraction::new(self.weight, self.requests as u128 * 1_000_000_000)
        } else {
            Fraction::whole(0)
        };
        TaskSnapshot {
            name,
            requests: self.requests,
            errors: self.errors,
            latency: LatencySnapshot {
                p50_ms: Fraction::whole(
                    percentile_from_merged(&self.buckets, self.requests, share(50)),
                ),
                p95_ms: Fraction::whole(
                    percentile_from_merged(&self.buckets, self.requests, share(95)),
                ),
                p99_ms: Fraction::whole(
                    percentile_from_merged(&self.buckets, self.requests, share(99)),
                ),
                max_ms: Fraction::whole(highest_bucket(&self.buckets)),
                min_ms: Fraction::whole(lowest_bucket(&self.buckets)),
                mean_ms: mean,
            },
        }
    }
}

pub(crate) proof fn lemma_task_sums_push(mine: Seq<TaskWireSnapshot>, t: TaskWireSnapshot)
    ensures
        task_requests(mine.push(t)) == task_requests(mine) + t.requests,
        task_errors(mine.push(t)) == task_errors(mine) + t.errors,
        task_weight(mine.push(t)) == task_weight(mine) + t.latency.mean_ps * t.requests,
{
    let more = mine.push(t);
    assert(t.latency.mean_ps * t.requests >= 0) by (nonlinear_arith);
    assert(more.map_values(|t: TaskWireSnapshot| t.requests as nat).drop_last() =~= mine.map_values(
        |t: TaskWireSnapshot| t.requests as nat,
    ));
    assert(more.map_values(|t: TaskWireSnapshot| t.errors as nat).drop_last() =~= mine.map_values(
        |t: TaskWireSnapshot| t.errors as nat,
    ));
    assert(more.map_values(
        |t: TaskWireSnapshot| (t.latency.mean_ps * t.requests) as nat,
    ).drop_last() =~= mine.map_values(
        |t: TaskWireSnapshot| (t.latency.mean_ps * t.requests) as nat,
    ));
}

pub(crate) proof fn lemma_task_count_push(mine: Seq<TaskWireSnapshot>, t: TaskWireSnapshot, b: int)
    ensures
        task_count(mine.push(t), b) == task_count(mine, b) + count_in(t.histogram_buckets@, b),
{
    let more = mine.push(t);
    assert(more.map_values(
        |t: TaskWireSnapshot| count_in(t.histogram_buckets@, b),
    ).drop_last() =~= mine.map_values(|t: TaskWireSnapshot| count_in(t.histogram_buckets@, b)));
}

proof fn lemma_weight_bound(mine: Seq<TaskWireSnapshot>)
    ensures
        task_weight(mine) <= 0xffff_ffff_ffff_ffff * task_requests(mine),
    decreases mine.len(),
{
    if mine.len() == 0 {
        assert(mine.map_values(|t: TaskWireSnapshot| (t.latency.mean_ps * t.requests) as nat)
            =~= Seq::<nat>::empty());
    } else {
        let front = mine.drop_last();
        let t = mine.last();
        lemma_weight_bound(front);
        lemma_task_sums_push(front, t);
        assert(front.push(t) =~= mine);
        assert(t.latency.mean_ps * t.requests <= 0xffff_ffff_ffff_ffff * t.requests)
            by (nonlinear_arith)
            requires
                t.latency.mean_ps <= 0xffff_ffff_ffff_ffff,
                t.requests >= 0,
        ;
    }
}

pub(crate) proof fn lemma_named_push(ts: Seq<TaskWireSnapshot>, t: TaskWireSnapshot, name: Seq<char>)
    ensures
        named(ts.push(t), name) == (if t.name@ == name {
            named(ts, name).push(t)
        } else {
            named(ts, name)
        }),
{
    assert(ts.push(t).drop_last() =~= ts);
}

proof fn lemma_sums_fit_prefix(mine: Seq<TaskWireSnapshot>, more: Seq<TaskWireSnapshot>)
    requires
        sums_fit(mine + more),
    ensures
        sums_fit(mine),
    decreases more.len(),
{
    if more.len() == 0 {
        assert(mine + more =~= mine);
    } else {
        let front = mine + more.drop_last();
        assert(front.push(more.last()) =~= mine + more);
        lemma_task_sums_push(front, more.last());
        assert(more.last().latency.mean_ps * more.last().requests >= 0) by (nonlinear_arith);
        assert forall|b: int| 0 <= b < BUCKETS implies #[trigger] task_count(front, b)
            <= u64::MAX by {
            lemma_task_count_push(front, more.last(), b);
            assert(task_count(mine + more, b) <= u64::MAX);
        }
        lemma_sums_fit_prefix(mine, more.drop_last());
    }
}

proof fn lemma_named_prefix(ts: Seq<TaskWireSnapshot>, more: Seq<TaskWireSnapshot>, name: Seq<char>)
    ensures
        exists|rest: Seq<TaskWireSnapshot>|
            named(ts + more, name) == #[trigger] (named(ts, name) + rest),
    decreases more.len(),
{
    if more.len() == 0 {
        assert(ts + more =~= ts);
        let rest = Seq::<TaskWireSnapshot>::empty();
        assert(named(ts, name) + rest =~= named(ts, name));
    } else {
        let front = ts + more.drop_last();
        assert(front.push(more.last()) =~= ts + more);
        lemma_named_push(front, more.last(), name);
        lemma_named_prefix(ts, more.drop_last(), name);
        let rest = choose|rest: Seq<TaskWireSnapshot>|
            named(front, name) == #[trigger] (named(ts, name) + rest);
        if more.last().name@ == name {
            assert(named(ts + more, name) =~= named(ts, name) + rest.push(more.last()));
        } else {
            assert(named(ts + more, name) == named(ts, name) + rest);
        }
    }
}

proof fn lemma_tasks_fit_prefix(ts: Seq<TaskWireSnapshot>, more: Seq<TaskWireSnapshot>)
    requires
        tasks_fit(ts + more),
    ensures
        tasks_fit(ts),
{
    assert forall|name: Seq<char>| sums_fit(#[trigger] named(ts, name)) by {
        lemma_named_prefix(ts, more, name);
        let rest = choose|rest: Seq<TaskWireSnapshot>|
            named(ts + more, name) == #[trigger] (named(ts, name) + rest);
        assert(sums_fit(named(ts + more, name)));
        lemma_sums_fit_prefix(named(ts, name), rest);
    }
}

/// The map holds the sums of each task that occurs in `ts`.
closed spec fn map_holds(m: Map<Seq<char>, TaskSum>, ts: Seq<TaskWireSnapshot>) -> bool {
    &&& forall|name: Seq<char>| #[trigger]
        m.contains_key(name) <==> named(ts, name).len() > 0
    &&& forall|name: Seq<char>| #[trigger]
        m.contains_key(name) ==> m[name].holds(named(ts, name))
}

proof fn lemma_tasks_fit_push(ts: Seq<TaskWireSnapshot>, t: TaskWireSnapshot)
    requires
        tasks_fit(ts),
    ensures
        tasks_fit(ts.push(t)) == sums_fit(named(ts.push(t), t.name@)),
{
    let more = ts.push(t);
    if sums_fit(named(more, t.name@)) {
        assert forall|name: Seq<char>| sums_fit(#[trigger] named(more, name)) by {
            lemma_named_push(ts, t, name);
            assert(sums_fit(named(ts, name)));
        }
    }
}

/// Adds one report to the sums of its task. Says whether they still fit.
fn add_task(
    sums: &mut StringMap<TaskSum>,
    t: &TaskWireSnapshot,
    Ghost(ts): Ghost<Seq<TaskWireSnapshot>>,
) -> (r: bool)
    requires
        map_holds(old(sums)@, ts),
        tasks_fit(ts),
    ensures
        r == tasks_fit(ts.push(*t)),
        r ==> map_holds(final(sums)@, ts.push(*t)),
{
    let ghost before = sums@;
    let ghost name = t.name@;
    let ghost mine = named(ts, name);
    let mut sum = match sums.take(t.name.as_str()) {
        Some(s) => s,
        None => {
            proof {
                assert(mine =~= seq![]);
            }
            TaskSum::new()
        },
    };
    proof {
        lemma_named_push(ts, *t, name);
        lemma_tasks_fit_push(ts, *t);
        assert(sum.holds(mine));
    }
    if !sum.add_report(t, Ghost(mine)) {
        return false;
    }
    let ghost done = sum;
    sums.insert(t.name.clone(), sum);
    proof {
        let more = ts.push(*t);
        assert(sums@ =~= before.insert(name, done));
        assert forall|n: Seq<char>| #[trigger] sums@.contains_key(n) <==> named(more, n).len()
            > 0 by {
            lemma_named_push(ts, *t, n);
            assert(before.contains_key(n) <==> named(ts, n).len() > 0);
        }
        assert forall|n: Seq<char>| #[trigger] sums@.contains_key(n) implies sums@[n].holds(
            named(more, n),
        ) by {
            lemma_named_push(ts, *t, n);
            if n != name {
                assert(before.contains_key(n));
            }
        }
    }
    true
}

proof fn lemma_all_tasks_prefix(snapshots: Seq<AgentMetricsMsg>, k: int)
    requires
        0 <= k <= snapshots.len(),
    ensures
        exists|rest: Seq<TaskWireSnapshot>|
            all_tasks(snapshots) == #[trigger] (all_tasks(snapshots.take(k)) + rest),
    decreases snapshots.len() - k,
{
    if k == snapshots.len() {
        assert(snapshots.take(k) =~= snapshots);
        let rest = Seq::<TaskWireSnapshot>::empty();
        assert(all_tasks(snapshots) + rest =~= all_tasks(snapshots));
    } else {
        lemma_all_tasks_prefix(snapshots, k + 1);
        let rest = choose|rest: Seq<TaskWireSnapshot>|
            all_tasks(snapshots) == #[trigger] (all_tasks(snapshots.take(k + 1)) + rest);
        assert(snapshots.take(k + 1).drop_last() =~= snapshots.take(k));
        let rest2 = snapshots[k].task_snapshots@ + rest;
        assert(all_tasks(snapshots.take(k)) + rest2 =~= all_tasks(snapshots.take(k + 1)) + rest);
    }
}

/// The sums of each task over all agents, where they fit.
fn sum_tasks(snapshots: &[AgentMetricsMsg]) -> (r: Option<StringMap<TaskSum>>)
    ensures
        r is Some <==> tasks_fit(all_tasks(snapshots@)),
        r matches Some(sums) ==> map_holds(sums@, all_tasks(snapshots@)),
{
    let ghost all = all_tasks(snapshots@);
    let mut sums: StringMap<TaskSum> = StringMap::new();
    let mut i: usize = 0;
    proof {
        assert(snapshots@.take(0) =~= Seq::<AgentMetricsMsg>::empty());
        lemma_no_tasks_fit();
    }
    while i < snapshots.len()
        invariant
            i <= snapshots@.len(),
            all == all_tasks(snapshots@),
            tasks_fit(all_tasks(snapshots@.take(i as int))),
            map_holds(sums@, all_tasks(snapshots@.take(i as int))),
        decreases snapshots@.len() - i,
    {
        let list = &snapshots[i].task_snapshots;
        let ghost done = all_tasks(snapshots@.take(i as int));
        proof {
            assert(snapshots@.take(i + 1).drop_last() =~= snapshots@.take(i as int));
            assert(all_tasks(snapshots@.take(i + 1)) == done + list@);
            assert(done + list@.take(0) =~= done);
        }
        let mut j: usize = 0;
        while j < list.len()
            invariant
                i < snapshots@.len(),
                list@ == snapshots@[i as int].task_snapshots@,
                all == all_tasks(snapshots@),
                all_tasks(snapshots@.take(i + 1)) == done + list@,
                j <= list@.len(),
                tasks_fit(done + list@.take(j as int)),
                map_holds(sums@, done + list@.take(j as int)),
            decreases list@.len() - j,
        {
            let ghost ts = done + list@.take(j as int);
            if !add_task(&mut sums, &list[j], Ghost(ts)) {
                proof {
                    lemma_all_tasks_prefix(snapshots@, i + 1);
                    let rest = choose|rest: Seq<TaskWireSnapshot>|
                        all == #[trigger] (all_tasks(snapshots@.take(i + 1)) + rest);
                    let tail = list@.skip(j + 1) + rest;
                    assert(ts.push(list@[j as int]) + tail =~= all);
                    if tasks_fit(all) {
                        lemma_tasks_fit_prefix(ts.push(list@[j as int]), tail);
                    }
                }
                return None;
            }
            proof {
                assert(ts.push(list@[j as int]) =~= done + list@.take(j + 1));
            }
            j = j + 1;
        }
        proof {
            assert(list@.take(list@.len() as int) =~= list@);
        }
        i = i + 1;
    }
    proof {
        assert(snapshots@.take(snapshots@.len() as int) =~= snapshots@);
    }
    Some(sums)
}

proof fn lemma_no_tasks_fit()
    ensures
        tasks_fit(seq![]),
{
    let e = Seq::<TaskWireSnapshot>::empty();
    assert forall|name: Seq<char>| sums_fit(#[trigger] named(e, name)) by {
        assert(named(e, name) =~= e);
        assert(e.map_values(|t: TaskWireSnapshot| t.requests as nat) =~= Seq::<nat>::empty());
        assert(e.map_values(|t: TaskWireSnapshot| t.errors as nat) =~= Seq::<nat>::empty());
        assert forall|b: int| 0 <= b < BUCKETS implies #[trigger] task_count(e, b)
            <= u64::MAX by {
            assert(e.map_values(|t: TaskWireSnapshot| count_in(t.histogram_buckets@, b))
                =~= Seq::<nat>::empty());
        }
    }
}

/// Merges the task reports of all agents: the reports of a task are added up,
/// its percentiles come from the merged histogram, and its mean is weighted by
/// requests.
pub fn aggregate_tasks(snapshots: &[AgentMetricsMsg]) -> (tasks: Vec<TaskSnapshot>)
    requires
        tasks_fit(all_tasks(snapshots@)),
    ensures
        are_merged_tasks(tasks@, all_tasks(snapshots@)),
{
    match sum_tasks(snapshots) {
        Some(sums) => merged_tasks(&sums, Ghost(all_tasks(snapshots@))),
        None => Vec::new(),
    }
}

/// The reports of the sums, in the order of the task names.
fn merged_tasks(
    sums: &StringMap<TaskSum>,
    Ghost(all): Ghost<Seq<TaskWireSnapshot>>,
) -> (tasks: Vec<TaskSnapshot>)
    requires
        map_holds(sums@, all),
    ensures
        are_merged_tasks(tasks@, all),
{
    let n: usize = sums.len();
    let ghost keys = sums.keys();
    let mut tasks: Vec<TaskSnapshot> = Vec::new();
    let mut k: usize = 0;
    while k < n
        invariant
            sums.listed(),
            keys == sums.keys(),
            n == keys.len(),
            map_holds(sums@, all),
            k <= n,
            tasks@.len() == k,
            forall|j: int|
                0 <= j < k ==> (#[trigger] tasks@[j]).name@ == keys[j] && is_merged_task(
                    tasks@[j],
                    named(all, keys[j]),
                ),
        decreases n - k,
    {
        let name = sums.key_at(k).clone();
        let ghost mine = named(all, name@);
        let snap = sums.value_at(k).snapshot(name, Ghost(mine));
        tasks.push(snap);
        k = k + 1;
    }
    proof {
        assert forall|i: int, j: int| 0 <= i < j < tasks@.len() implies crate::text::text_less(
            (#[trigger] tasks@[i]).name@,
            (#[trigger] tasks@[j]).name@,
        ) by {
            assert(crate::text::text_less(keys[i], keys[j]));
        }
        assert forall|i: int| 0 <= i < tasks@.len() implies named(
            all,
            (#[trigger] tasks@[i]).name@,
        ).len() > 0 && is_merged_task(tasks@[i], named(all, tasks@[i].name@)) by {
            assert(sums@.contains_key(keys[i]));
        }
        assert forall|name: Seq<char>| (#[trigger] named(all, name)).len() > 0 implies exists|i: int|
            0 <= i < tasks@.len() && (#[trigger] tasks@[i]).name@ == name by {
            assert(sums@.contains_key(name));
            let j = keys.index_of(name);
            assert(tasks@[j].name@ == name);
        }
    }
    tasks
}

// ── All agents ────────────────────────────────────────────────────────────────

/// The requests of each agent.
pub open spec fn requests_of(s: Seq<AgentMetricsMsg>) -> Seq<nat> {
    s.map_values(|m: AgentMetricsMsg| m.requests_total as nat)
}

/// The errors of each agent.
pub open spec fn errors_of(s: Seq<AgentMetricsMsg>) -> Seq<nat> {
    s.map_values(|m: AgentMetricsMsg| m.errors_total as nat)
}

/// The workers of each agent.
pub open spec fn workers_of(s: Seq<AgentMetricsMsg>) -> Seq<nat> {
    s.map_values(|m: AgentMetricsMsg| m.active_workers as nat)
}

/// The current rate of each agent.
pub open spec fn current_of(s: Seq<AgentMetricsMsg>) -> Seq<nat> {
    s.map_values(|m: AgentMetricsMsg| m.current_nano_rps as nat)
}

/// The target rate of each agent.
pub open spec fn target_of(s: Seq<AgentMetricsMsg>) -> Seq<nat> {
    s.map_values(|m: AgentMetricsMsg| m.target_nano_rps as nat)
}

/// The elapsed time of each agent.
pub open spec fn elapsed_of(s: Seq<AgentMetricsMsg>) -> Seq<nat> {
    s.map_values(|m: AgentMetricsMsg| m.elapsed_ns as nat)
}

/// The sum of the latencies of each agent, in picoseconds.
pub open spec fn weights_of(s: Seq<AgentMetricsMsg>) -> Seq<nat> {
    s.map_values(|m: AgentMetricsMsg| (m.latency.mean_ps * m.requests_total) as nat)
}

/// The greatest latency of each agent.
pub open spec fn max_of(s: Seq<AgentMetricsMsg>) -> Seq<nat> {
    s.map_values(|m: AgentMetricsMsg| m.latency.max_ps as nat)
}

/// The least latency of each agent.
pub open spec fn min_of(s: Seq<AgentMetricsMsg>) -> Seq<nat> {
    s.map_values(|m: AgentMetricsMsg| m.latency.min_ps as nat)
}

/// The 50th percentile of each agent.
pub open spec fn p50_of(s: Seq<AgentMetricsMsg>) -> Seq<nat> {
    s.map_values(|m: AgentMetricsMsg| m.latency.p50_ps as nat)
}

/// The 95th percentile of each agent.
pub open spec fn p95_of(s: Seq<AgentMetricsMsg>) -> Seq<nat> {
    s.map_values(|m: AgentMetricsMsg| m.latency.p95_ps as nat)
}

/// The 99th percentile of each agent.
pub open spec fn p99_of(s: Seq<AgentMetricsMsg>) -> Seq<nat> {
    s.map_values(|m: AgentMetricsMsg| m.latency.p99_ps as nat)
}

/// The phase of each agent.
pub open spec fn phases_of(s: Seq<AgentMetricsMsg>) -> Seq<Seq<char>> {
    s.map_values(|m: AgentMetricsMsg| m.phase@)
}

/// What all agents count for bucket `b`.
pub open spec fn agents_count(s: Seq<AgentMetricsMsg>, b: int) -> nat {
    crate::number::total(s.map_values(|m: AgentMetricsMsg| count_in(m.histogram_buckets@, b)))
}

/// The merged histogram of all agents.
pub open spec fn agents_histogram(s: Seq<AgentMetricsMsg>) -> Seq<u64> {
    histogram_with(|b: int| agents_count(s, b))
}

/// Some agent sent a histogram.
pub open spec fn has_histograms(s: Seq<AgentMetricsMsg>) -> bool {
    exists|i: int| 0 <= i < s.len() && (#[trigger] s[i]).histogram_buckets@.len() > 0
}

/// The greatest of the numbers, or 0 when there is none.
pub open spec fn greatest(s: Seq<nat>) -> nat
    decreases s.len(),
{
    if s.len() == 0 {
        0
    } else if s.last() > greatest(s.drop_last()) {
        s.last()
    } else {
        greatest(s.drop_last())
    }
}

/// The least of the numbers, of which there is at least one.
pub open spec fn least(s: Seq<nat>) -> nat
    decreases s.len(),
{
    if s.len() <= 1 {
        s[0]
    } else if s.last() < least(s.drop_last()) {
        s.last()
    } else {
        least(s.drop_last())
    }
}

/// How far a phase has come among the phases of a test that still runs.
pub open spec fn priority(phase: Seq<char>) -> int {
    if phase == "steady"@ {
        2
    } else if phase == "ramp_down"@ {
        3
    } else {
        1
    }
}

/// The phase that has come farthest among those that are not done; of equal
/// ones the last.
pub open spec fn leading(phases: Seq<Seq<char>>) -> Option<Seq<char>>
    decreases phases.len(),
{
    if phases.len() == 0 {
        None
    } else {
        let before = leading(phases.drop_last());
        let p = phases.last();
        if p == "done"@ {
            before
        } else {
            match before {
                Some(q) => if priority(p) >= priority(q) {
                    Some(p)
                } else {
                    Some(q)
                },
                None => Some(p),
            }
        }
    }
}

/// The phase of the whole test: done only when every agent is.
pub open spec fn overall_phase(phases: Seq<Seq<char>>) -> Seq<char> {
    match leading(phases) {
        Some(p) => p,
        None => "done"@,
    }
}

/// The totals over all agents fit in 64 bits.
pub open spec fn totals_fit(s: Seq<AgentMetricsMsg>) -> bool {
    &&& crate::number::total(requests_of(s)) <= u64::MAX
    &&& crate::number::total(errors_of(s)) <= u64::MAX
    &&& crate::number::total(workers_of(s)) <= u64::MAX
}

/// The merged histogram of all agents fits in 64 bits.
pub open spec fn histograms_fit(s: Seq<AgentMetricsMsg>) -> bool {
    forall|b: int| 0 <= b < BUCKETS ==> #[trigger] agents_count(s, b) <= u64::MAX
}

/// All sums over all agents fit in 64 bits.
pub open spec fn agents_fit(s: Seq<AgentMetricsMsg>) -> bool {
    &&& totals_fit(s)
    &&& histograms_fit(s)
    &&& tasks_fit(all_tasks(s))
}

/// A number of billionths.
pub open spec fn billionths(n: nat) -> Fraction {
    Fraction { num: n as u128, den: 1_000_000_000 }
}

/// The average of `n` numbers of billionths that add up to `sum`.
pub open spec fn average(sum: nat, n: nat) -> Fraction {
    Fraction { num: sum as u128, den: (n * 1_000_000_000) as u128 }
}

/// The percentile `p` of all agents: from the merged histogram, or the average
/// of the agents' own where no agent sent a histogram.
pub open spec fn overall_percentile(s: Seq<AgentMetricsMsg>, p: Fraction, own: Seq<nat>) -> Fraction {
    if has_histograms(s) {
        crate::metrics::whole(
            crate::metrics::percentile_of(
                agents_histogram(s),
                crate::number::total(requests_of(s)) as u64,
                p,
            ),
        )
    } else {
        average(crate::number::total(own), s.len())
    }
}

/// The latencies of all agents.
pub open spec fn overall_latency(s: Seq<AgentMetricsMsg>) -> LatencySnapshot {
    let n = crate::number::total(requests_of(s));
    LatencySnapshot {
        p50_ms: overall_percentile(s, crate::metrics::percent(50), p50_of(s)),
        p95_ms: overall_percentile(s, crate::metrics::percent(95), p95_of(s)),
        p99_ms: overall_percentile(s, crate::metrics::percent(99), p99_of(s)),
        max_ms: billionths(greatest(max_of(s))),
        min_ms: billionths(least(min_of(s))),
        mean_ms: average(
            crate::number::total(weights_of(s)),
            if n == 0 {
                1
            } else {
                n
            },
        ),
    }
}

/// The latencies where there are no agents.
pub open spec fn no_latency() -> LatencySnapshot {
    LatencySnapshot {
        p50_ms: crate::metrics::whole(0),
        p95_ms: crate::metrics::whole(0),
        p99_ms: crate::metrics::whole(0),
        max_ms: crate::metrics::whole(0),
        min_ms: crate::metrics::whole(0),
        mean_ms: crate::metrics::whole(0),
    }
}

/// `a` are the metrics of the agents `s` together.
pub open spec fn is_aggregate(a: AggregatedSnapshot, s: Seq<AgentMetricsMsg>) -> bool {
    if s.len() == 0 {
        &&& a.elapsed_ns == 0
        &&& a.current_rps == crate::metrics::whole(0)
        &&& a.target_rps == crate::metrics::whole(0)
        &&& a.requests_total == 0
        &&& a.errors_total == 0
        &&& a.active_workers == 0
        &&& a.phase@ == "ramp_up"@
        &&& a.latency == no_latency()
        &&& a.tasks@.len() == 0
    } else {
        &&& a.elapsed_ns == greatest(elapsed_of(s))
        &&& a.current_rps == billionths(crate::number::total(current_of(s)))
        &&& a.target_rps == billionths(crate::number::total(target_of(s)))
        &&& a.requests_total == crate::number::total(requests_of(s))
        &&& a.errors_total == crate::number::total(errors_of(s))
        &&& a.active_workers == crate::number::total(workers_of(s))
        &&& a.phase@ == overall_phase(phases_of(s))
        &&& a.latency == overall_latency(s)
        &&& are_merged_tasks(a.tasks@, all_tasks(s))
    }
}

/// The sums over the agents that were looked at so far.
struct Sums {
    requests: u64,
    errors: u64,
    workers: u64,
    current: u128,
    target: u128,
    weight: u128,
    p50: u128,
    p95: u128,
    p99: u128,
    elapsed: u64,
    max_ps: u64,
    min_ps: u64,
    histograms: bool,
}

impl Sums {
    closed spec fn holds(self, s: Seq<AgentMetricsMsg>) -> bool {
        &&& self.requests == crate::number::total(requests_of(s))
        &&& self.errors == crate::number::total(errors_of(s))
        &&& self.workers == crate::number::total(workers_of(s))
        &&& self.current == crate::number::total(current_of(s))
        &&& self.target == crate::number::total(target_of(s))
        &&& self.weight == crate::number::total(weights_of(s))
        &&& self.p50 == crate::number::total(p50_of(s))
        &&& self.p95 == crate::number::total(p95_of(s))
        &&& self.p99 == crate::number::total(p99_of(s))
        &&& self.elapsed == greatest(elapsed_of(s))
        &&& self.max_ps == greatest(max_of(s))
        &&& self.min_ps == if s.len() == 0 {
            u64::MAX as nat
        } else {
            least(min_of(s))
        }
        &&& self.histograms == has_histograms(s)
        &&& self.current <= s.len() * 0xffff_ffff_ffff_ffff
        &&& self.target <= s.len() * 0xffff_ffff_ffff_ffff
        &&& self.p50 <= s.len() * 0xffff_ffff_ffff_ffff
        &&& self.p95 <= s.len() * 0xffff_ffff_ffff_ffff
        &&& self.p99 <= s.len() * 0xffff_ffff_ffff_ffff
        &&& self.weight <= 0xffff_ffff_ffff_ffff * self.requests
    }

    fn new() -> (r: Sums)
        ensures
            r.holds(seq![]),
    {
        proof {
            let e = Seq::<AgentMetricsMsg>::empty();
            assert(requests_of(e) =~= Seq::<nat>::empty());
            assert(errors_of(e) =~= Seq::<nat>::empty());
            assert(workers_of(e) =~= Seq::<nat>::empty());
            assert(current_of(e) =~= Seq::<nat>::empty());
            assert(target_of(e) =~= Seq::<nat>::empty());
            assert(weights_of(e) =~= Seq::<nat>::empty());
            assert(p50_of(e) =~= Seq::<nat>::empty());
            assert(p95_of(e) =~= Seq::<nat>::empty());
            assert(p99_of(e) =~= Seq::<nat>::empty());
            assert(elapsed_of(e) =~= Seq::<nat>::empty());
            assert(max_of(e) =~= Seq::<nat>::empty());
        }
        Sums {
            requests: 0,
            errors: 0,
            workers: 0,
            current: 0,
            target: 0,
            weight: 0,
            p50: 0,
            p95: 0,
            p99: 0,
            elapsed: 0,
            max_ps: 0,
            min_ps: u64::MAX,
            histograms: false,
        }
    }

    /// Takes in one more agent. Says whether the sums still fit.
    fn add_agent(
        &mut self,
        m: &AgentMetricsMsg,
        Ghost(s): Ghost<Seq<AgentMetricsMsg>>,
    ) -> (r: bool)
        requires
            old(self).holds(s),
            s.len() < usize::MAX,
        ensures
            r == totals_fit(s.push(*m)),
            r ==> final(self).holds(s.push(*m)),
    {
        proof {
            lemma_columns_push(s, *m);
            assert(0 <= m.latency.mean_ps * m.requests_total <= 0xffff_ffff_ffff_ffff
                * m.requests_total) by (nonlinear_arith)
                requires
                    0 <= m.latency.mean_ps <= 0xffff_ffff_ffff_ffff,
                    0 <= m.requests_total,
            ;
        }
        let requests: u64 = match self.requests.checked_add(m.requests_total) {
            Some(n) => n,
            None => {
                return false;
            },
        };
        let errors: u64 = match self.errors.checked_add(m.errors_total) {
            Some(n) => n,
            None => {
                return false;
            },
        };
        let workers: u64 = match self.workers.checked_add(m.active_workers) {
            Some(n) => n,
            None => {
                return false;
            },
        };
        self.requests = requests;
        self.errors = errors;
        self.workers = workers;
        self.current = self.current + m.current_nano_rps as u128;
        self.target = self.target + m.target_nano_rps as u128;
        self.weight = self.weight + m.latency.mean_ps as u128 * m.requests_total as u128;
        self.p50 = self.p50 + m.latency.p50_ps as u128;
        self.p95 = self.p95 + m.latency.p95_ps as u128;
        self.p99 = self.p99 + m.latency.p99_ps as u128;
        if m.elapsed_ns > self.elapsed {
            self.elapsed = m.elapsed_ns;
        }
        if m.latency.max_ps > self.max_ps {
            self.max_ps = m.latency.max_ps;
        }
        if m.latency.min_ps < self.min_ps {
            self.min_ps = m.latency.min_ps;
        }
        if m.histogram_buckets.len() > 0 {
            self.histograms = true;
        }
        true
    }
}

pub(crate) proof fn lemma_columns_push(s: Seq<AgentMetricsMsg>, m: AgentMetricsMsg)
    ensures
        crate::number::total(requests_of(s.push(m))) == crate::number::total(requests_of(s))
            + m.requests_total,
        crate::number::total(errors_of(s.push(m))) == crate::number::total(errors_of(s))
            + m.errors_total,
        crate::number::total(workers_of(s.push(m))) == crate::number::total(workers_of(s))
            + m.active_workers,
        crate::number::total(current_of(s.push(m))) == crate::number::total(current_of(s))
            + m.current_nano_rps,
        crate::number::total(target_of(s.push(m))) == crate::number::total(target_of(s))
            + m.target_nano_rps,
        crate::number::total(weights_of(s.push(m))) == crate::number::total(weights_of(s))
            + m.latency.mean_ps * m.requests_total,
        crate::number::total(p50_of(s.push(m))) == crate::number::total(p50_of(s))
            + m.latency.p50_ps,
        crate::number::total(p95_of(s.push(m))) == crate::number::total(p95_of(s))
            + m.latency.p95_ps,
        crate::number::total(p99_of(s.push(m))) == crate::number::total(p99_of(s))
            + m.latency.p99_ps,
        greatest(elapsed_of(s.push(m))) == if m.elapsed_ns > greatest(elapsed_of(s)) {
            m.elapsed_ns as nat
        } else {
            greatest(elapsed_of(s))
        },
        greatest(max_of(s.push(m))) == if m.latency.max_ps > greatest(max_of(s)) {
            m.latency.max_ps as nat
        } else {
            greatest(max_of(s))
        },
        least(min_of(s.push(m))) == if s.len() == 0 || m.latency.min_ps < least(min_of(s)) {
            m.latency.min_ps as nat
        } else {
            least(min_of(s))
        },
        has_histograms(s.push(m)) == (has_histograms(s) || m.histogram_buckets@.len() > 0),
{
    let more = s.push(m);
    assert(m.latency.mean_ps * m.requests_total >= 0) by (nonlinear_arith);
    assert(requests_of(more).drop_last() =~= requests_of(s));
    assert(errors_of(more).drop_last() =~= errors_of(s));
    assert(workers_of(more).drop_last() =~= workers_of(s));
    assert(current_of(more).drop_last() =~= current_of(s));
    assert(target_of(more).drop_last() =~= target_of(s));
    assert(weights_of(more).drop_last() =~= weights_of(s));
    assert(p50_of(more).drop_last() =~= p50_of(s));
    assert(p95_of(more).drop_last() =~= p95_of(s));
    assert(p99_of(more).drop_last() =~= p99_of(s));
    assert(elapsed_of(more).drop_last() =~= elapsed_of(s));
    assert(max_of(more).drop_last() =~= max_of(s));
    assert(min_of(more).drop_last() =~= min_of(s));
    if has_histograms(s) {
        let i = choose|i: int| 0 <= i < s.len() && (#[trigger] s[i]).histogram_buckets@.len() > 0;
        assert(more[i] == s[i]);
    }
    if m.histogram_buckets@.len() > 0 {
        assert(more[s.len() as int] == m);
    }
    if has_histograms(more) {
        let i = choose|i: int|
            0 <= i < more.len() && (#[trigger] more[i]).histogram_buckets@.len() > 0;
        if i < s.len() {
            assert(s[i] == more[i]);
        }
    }
}

/// The phase of the whole test.
fn combined_phase(snapshots: &[AgentMetricsMsg]) -> (r: String)
    ensures
        r@ == overall_phase(phases_of(snapshots@)),
{
    let mut best: Option<String> = None;
    let ghost phases = phases_of(snapshots@);
    let mut i: usize = 0;
    proof {
        assert(phases.take(0) =~= Seq::<Seq<char>>::empty());
    }
    while i < snapshots.len()
        invariant
            phases == phases_of(snapshots@),
            i <= snapshots@.len(),
            best is Some <==> leading(phases.take(i as int)) is Some,
            best matches Some(p) ==> leading(phases.take(i as int)) == Some(p@),
        decreases snapshots@.len() - i,
    {
        proof {
            assert(phases.take(i + 1).drop_last() =~= phases.take(i as int));
            assert(phases.take(i + 1).last() == snapshots@[i as int].phase@);
        }
        let phase = &snapshots[i].phase;
        if !same_text(phase.as_str(), "done") {
            let better = match &best {
                Some(q) => phase_priority(phase.as_str()) >= phase_priority(q.as_str()),
                None => true,
            };
            if better {
                best = Some(phase.clone());
            }
        }
        i = i + 1;
    }
    proof {
        assert(phases.take(phases.len() as int) =~= phases);
    }
    match best {
        Some(p) => p,
        None => "done".to_string(),
    }
}

/// How far a phase has come.
fn phase_priority(phase: &str) -> (n: u8)
    ensures
        n == priority(phase@),
{
    if same_text(phase, "steady") {
        2
    } else if same_text(phase, "ramp_down") {
        3
    } else {
        1
    }
}

pub(crate) proof fn lemma_agents_count_push(s: Seq<AgentMetricsMsg>, m: AgentMetricsMsg, b: int)
    ensures
        agents_count(s.push(m), b) == agents_count(s, b) + count_in(m.histogram_buckets@, b),
{
    assert(s.push(m).map_values(
        |m: AgentMetricsMsg| count_in(m.histogram_buckets@, b),
    ).drop_last() =~= s.map_values(|m: AgentMetricsMsg| count_in(m.histogram_buckets@, b)));
}

proof fn lemma_totals_fit_prefix(s: Seq<AgentMetricsMsg>, k: int)
    requires
        totals_fit(s),
        0 <= k <= s.len(),
    ensures
        totals_fit(s.take(k)),
{
    assert(requests_of(s.take(k)) =~= requests_of(s).take(k));
    crate::number::total_monotone(requests_of(s), k);
    assert(errors_of(s.take(k)) =~= errors_of(s).take(k));
    crate::number::total_monotone(errors_of(s), k);
    assert(workers_of(s.take(k)) =~= workers_of(s).take(k));
    crate::number::total_monotone(workers_of(s), k);
}

proof fn lemma_histograms_fit_prefix(s: Seq<AgentMetricsMsg>, k: int)
    requires
        histograms_fit(s),
        0 <= k <= s.len(),
    ensures
        histograms_fit(s.take(k)),
{
    assert forall|b: int| 0 <= b < BUCKETS implies #[trigger] agents_count(s.take(k), b)
        <= u64::MAX by {
        let column = s.map_values(|m: AgentMetricsMsg| count_in(m.histogram_buckets@, b));
        assert(s.take(k).map_values(|m: AgentMetricsMsg| count_in(m.histogram_buckets@, b))
            =~= column.take(k));
        crate::number::total_monotone(column, k);
        assert(agents_count(s, b) <= u64::MAX);
    }
}

/// The merged histogram of all agents, where it fits.
fn merged_histogram(snapshots: &[AgentMetricsMsg]) -> (r: Option<Vec<u64>>)
    ensures
        r is Some <==> histograms_fit(snapshots@),
        r matches Some(v) ==> v@ == agents_histogram(snapshots@) && v@.len() == BUCKETS,
{
    let mut merged = empty_buckets();
    let mut i: usize = 0;
    proof {
        assert forall|b: int| 0 <= b < BUCKETS implies #[trigger] merged@[b] == agents_count(
            snapshots@.take(0),
            b,
        ) by {
            assert(snapshots@.take(0).map_values(
                |m: AgentMetricsMsg| count_in(m.histogram_buckets@, b),
            ) =~= Seq::<nat>::empty());
        }
    }
    while i < snapshots.len()
        invariant
            i <= snapshots@.len(),
            merged@.len() == BUCKETS,
            forall|b: int|
                0 <= b < BUCKETS ==> #[trigger] merged@[b] == agents_count(
                    snapshots@.take(i as int),
                    b,
                ),
        decreases snapshots@.len() - i,
    {
        let ghost before = merged@;
        let ghost s = snapshots@.take(i as int);
        let ghost m = snapshots@[i as int];
        proof {
            assert(snapshots@.take(i + 1) =~= s.push(m));
        }
        if !merge_buckets(&mut merged, &snapshots[i].histogram_buckets) {
            proof {
                let b = choose|b: int|
                    0 <= b < BUCKETS && #[trigger] before[b] + count_in(m.histogram_buckets@, b)
                        > u64::MAX;
                lemma_agents_count_push(s, m, b);
                assert(before[b] == agents_count(s, b));
                if histograms_fit(snapshots@) {
                    lemma_histograms_fit_prefix(snapshots@, i + 1);
                    assert(agents_count(snapshots@.take(i + 1), b) <= u64::MAX);
                }
            }
            return None;
        }
        proof {
            assert forall|b: int| 0 <= b < BUCKETS implies #[trigger] merged@[b] == agents_count(
                snapshots@.take(i + 1),
                b,
            ) by {
                lemma_agents_count_push(s, m, b);
                assert(before[b] == agents_count(s, b));
            }
        }
        i = i + 1;
    }
    proof {
        assert(snapshots@.take(snapshots@.len() as int) =~= snapshots@);
        assert(merged@ =~= agents_histogram(snapshots@));
        assert forall|b: int| 0 <= b < BUCKETS implies #[trigger] agents_count(snapshots@, b)
            <= u64::MAX by {
            assert(merged@[b] == agents_count(snapshots@, b));
        }
    }
    Some(merged)
}

/// The sums over all agents, where they fit.
fn sum_agents(snapshots: &[AgentMetricsMsg]) -> (r: Option<Sums>)
    ensures
        r is Some <==> totals_fit(snapshots@),
        r matches Some(sums) ==> sums.holds(snapshots@),
{
    let mut sums = Sums::new();
    let n: usize = snapshots.len();
    let mut i: usize = 0;
    proof {
        assert(snapshots@.take(0) =~= seq![]);
    }
    while i < n
        invariant
            n == snapshots@.len(),
            i <= n,
            sums.holds(snapshots@.take(i as int)),
        decreases n - i,
    {
        let ghost s = snapshots@.take(i as int);
        proof {
            assert(snapshots@.take(i + 1) =~= s.push(snapshots@[i as int]));
        }
        if !sums.add_agent(&snapshots[i], Ghost(s)) {
            proof {
                if totals_fit(snapshots@) {
                    lemma_totals_fit_prefix(snapshots@, i + 1);
                }
            }
            return None;
        }
        i = i + 1;
    }
    proof {
        assert(snapshots@.take(snapshots@.len() as int) =~= snapshots@);
    }
    Some(sums)
}

/// The metrics where there are no agents.
fn empty_aggregate(timestamp_ns: u64) -> (a: AggregatedSnapshot)
    ensures
        a.timestamp_ns == timestamp_ns,
        is_aggregate(a, seq![]),
{
    let zero = Fraction::whole(0);
    AggregatedSnapshot {
        timestamp_ns,
        elapsed_ns: 0,
        current_rps: zero,
        target_rps: zero,
        requests_total: 0,
        errors_total: 0,
        active_workers: 0,
        phase: "ramp_up".to_string(),
        latency: LatencySnapshot {
            p50_ms: zero,
            p95_ms: zero,
            p99_ms: zero,
            max_ms: zero,
            min_ms: zero,
            mean_ms: zero,
        },
        tasks: Vec::new(),
    }
}

/// The metrics of all agents together, where their sums fit in 64 bits.
pub fn try_aggregate(snapshots: &[AgentMetricsMsg], timestamp_ns: u64) -> (r: Option<
    AggregatedSnapshot,
>)
    ensures
        r is Some <==> agents_fit(snapshots@),
        r matches Some(a) ==> a.timestamp_ns == timestamp_ns && is_aggregate(a, snapshots@),
{
    let sums = match sum_agents(snapshots) {
        Some(sums) => sums,
        None => {
            return None;
        },
    };
    let merged = match merged_histogram(snapshots) {
        Some(merged) => merged,
        None => {
            return None;
        },
    };
    let task_sums = match sum_tasks(snapshots) {
        Some(task_sums) => task_sums,
        None => {
            return None;
        },
    };
    if snapshots.len() == 0 {
        proof {
            assert(snapshots@ =~= seq![]);
        }
        return Some(empty_aggregate(timestamp_ns));
    }
    let n: usize = snapshots.len();
    let (p50, p95, p99) = if sums.histograms {
        (
            Fraction::whole(percentile_from_merged(&merged, sums.requests, share(50))),
            Fraction::whole(percentile_from_merged(&merged, sums.requests, share(95))),
            Fraction::whole(percentile_from_merged(&merged, sums.requests, share(99))),
        )
    } else {
        let den: u128 = n as u128 * 1_000_000_000;
        (
            Fraction::new(sums.p50, den),
            Fraction::new(sums.p95, den),
            Fraction::new(sums.p99, den),
        )
    };
    let divisor: u64 = if sums.requests == 0 {
        1
    } else {
        sums.requests
    };
    Some(
        AggregatedSnapshot {
            timestamp_ns,
            elapsed_ns: sums.elapsed,
            current_rps: Fraction::new(sums.current, 1_000_000_000),
            target_rps: Fraction::new(sums.target, 1_000_000_000),
            requests_total: sums.requests,
            errors_total: sums.errors,
            active_workers: sums.workers,
            phase: combined_phase(snapshots),
            latency: LatencySnapshot {
                p50_ms: p50,
                p95_ms: p95,
                p99_ms: p99,
                max_ms: Fraction::new(sums.max_ps as u128, 1_000_000_000),
                min_ms: Fraction::new(sums.min_ps as u128, 1_000_000_000),
                mean_ms: Fraction::new(sums.weight, divisor as u128 * 1_000_000_000),
            },
            tasks: merged_tasks(&task_sums, Ghost(all_tasks(snapshots@))),
        },
    )
}

/// The metrics of all agents together: rates and counts are added up, the
/// percentiles come from the merged histograms, the mean is weighted by
/// requests, and the test is done only when every agent is.
pub fn aggregate(snapshots: &[AgentMetricsMsg], timestamp_ns: u64) -> (a: AggregatedSnapshot)
    requires
        agents_fit(snapshots@),
    ensures
        a.timestamp_ns == timestamp_ns,
        is_aggregate(a, snapshots@),
{
    match try_aggregate(snapshots, timestamp_ns) {
        Some(a) => a,
        None => empty_aggregate(timestamp_ns),
    }
}

/// The phase that a name stands for. A name that is none of them counts as the
/// first phase.
pub open spec fn shown_phase(phase: Seq<char>) -> Phase {
    if phase == "steady"@ {
        Phase::Steady
    } else if phase == "ramp_down"@ {
        Phase::RampDown
    } else if phase == "done"@ {
        Phase::Done
    } else {
        Phase::RampUp
    }
}

/// The report of an aggregate.
pub fn update_prometheus(agg: AggregatedSnapshot) -> (s: MetricsSnapshot)
    ensures
        s.timestamp_ns == agg.timestamp_ns,
        s.elapsed_ns == agg.elapsed_ns,
        s.current_rps == agg.current_rps,
        s.target_rps == agg.target_rps,
        s.requests_total == agg.requests_total,
        s.errors_total == agg.errors_total,
        s.active_workers == agg.active_workers,
        s.latency == agg.latency,
        s.phase == shown_phase(agg.phase@),
        s.tasks == agg.tasks,
{
    let phase = if same_text(agg.phase.as_str(), "steady") {
        Phase::Steady
    } else if same_text(agg.phase.as_str(), "ramp_down") {
        Phase::RampDown
    } else if same_text(agg.phase.as_str(), "done") {
        Phase::Done
    } else {
        Phase::RampUp
    };
    MetricsSnapshot {
        timestamp_ns: agg.timestamp_ns,
        elapsed_ns: agg.elapsed_ns,
        current_rps: agg.current_rps,
        target_rps: agg.target_rps,
        requests_total: agg.requests_total,
        errors_total: agg.errors_total,
        active_workers: agg.active_workers,
        latency: agg.latency,
        phase,
        tasks: agg.tasks,
    }
}

// ── Laws ──────────────────────────────────────────────────────────────────────

/// A phase that goes by none of the known names is shown as the first one.
pub proof fn unknown_phases_are_shown_as_the_first(name: Seq<char>)
    requires
        name != "steady"@,
        name != "ramp_down"@,
        name != "done"@,
    ensures
        shown_phase(name) == Phase::RampUp,
{
}

/// Every phase is shown as it was reported.
pub proof fn phases_are_shown_as_reported(p: Phase)
    ensures
        shown_phase(crate::scheduler::phase_name(p)) == p,
{
    reveal_strlit("ramp_up");
    reveal_strlit("steady");
    reveal_strlit("ramp_down");
    reveal_strlit("done");
    assert("ramp_up"@.len() == 7 && "steady"@.len() == 6 && "ramp_down"@.len() == 9
        && "done"@.len() == 4);
}

pub(crate) proof fn lemma_leading(phases: Seq<Seq<char>>)
    ensures
        leading(phases) is None <==> forall|i: int|
            0 <= i < phases.len() ==> #[trigger] phases[i] == "done"@,
        leading(phases) matches Some(p) ==> p != "done"@ && phases.contains(p),
        leading(phases) matches Some(p) ==> forall|i: int|
            0 <= i < phases.len() && #[trigger] phases[i] != "done"@ ==> priority(phases[i])
                <= priority(p),
    decreases phases.len(),
{
    if phases.len() > 0 {
        let front = phases.drop_last();
        lemma_leading(front);
        assert forall|i: int| 0 <= i < front.len() implies #[trigger] phases[i] == front[i] by {}
        assert(phases[phases.len() - 1] == phases.last());
        if let Some(q) = leading(front) {
            let i = front.index_of(q);
            assert(phases[i] == q);
        }
        if leading(phases) is None {
            assert forall|i: int| 0 <= i < phases.len() implies #[trigger] phases[i]
                == "done"@ by {
                if i < front.len() {
                    assert(front[i] == "done"@);
                }
            }
        }
        if let Some(p) = leading(phases) {
            assert forall|i: int| 0 <= i < phases.len() && #[trigger] phases[i]
                != "done"@ implies priority(phases[i]) <= priority(p) by {
                if i < front.len() {
                    assert(front[i] != "done"@);
                }
            }
        }
    }
}

/// The whole test is done exactly when every agent is. Until then its phase is
/// that of an agent that still runs, and no such agent has come farther.
pub proof fn done_when_all_are_done(phases: Seq<Seq<char>>)
    ensures
        overall_phase(phases) == "done"@ <==> forall|i: int|
            0 <= i < phases.len() ==> #[trigger] phases[i] == "done"@,
        overall_phase(phases) != "done"@ ==> phases.contains(overall_phase(phases)) && forall|
            i: int,
        |
            0 <= i < phases.len() && #[trigger] phases[i] != "done"@ ==> priority(phases[i])
                <= priority(overall_phase(phases)),
{
    lemma_leading(phases);
}

/// The latencies of all agents, one agent after the other.
pub open spec fn all_latencies(ls: Seq<Seq<u64>>) -> Seq<u64>
    decreases ls.len(),
{
    if ls.len() == 0 {
        seq![]
    } else {
        all_latencies(ls.drop_last()) + ls.last()
    }
}

/// The agent reports the latencies `l`: their number, and how many of them fall
/// into each bucket.
pub open spec fn reports_latencies(m: AgentMetricsMsg, l: Seq<u64>) -> bool {
    &&& m.requests_total == l.len()
    &&& forall|b: int|
        0 <= b < BUCKETS ==> #[trigger] count_in(m.histogram_buckets@, b)
            == crate::histogram_laws::count_at(l, b)
}

proof fn lemma_fleet_counts(s: Seq<AgentMetricsMsg>, ls: Seq<Seq<u64>>, b: int)
    requires
        s.len() == ls.len(),
        forall|i: int| 0 <= i < s.len() ==> reports_latencies(#[trigger] s[i], ls[i]),
        0 <= b < BUCKETS,
    ensures
        agents_count(s, b) == crate::histogram_laws::count_at(all_latencies(ls), b),
        crate::number::total(requests_of(s)) == all_latencies(ls).len(),
    decreases s.len(),
{
    if s.len() == 0 {
        assert(s.map_values(|m: AgentMetricsMsg| count_in(m.histogram_buckets@, b))
            =~= Seq::<nat>::empty());
        assert(requests_of(s) =~= Seq::<nat>::empty());
    } else {
        let front = s.drop_last();
        let m = s.last();
        let l = ls.last();
        assert forall|i: int| 0 <= i < front.len() implies reports_latencies(
            #[trigger] front[i],
            ls.drop_last()[i],
        ) by {
            assert(reports_latencies(s[i], ls[i]));
        }
        assert(reports_latencies(s[s.len() - 1], ls[s.len() - 1]));
        lemma_fleet_counts(front, ls.drop_last(), b);
        assert(front.push(m) =~= s);
        lemma_agents_count_push(front, m, b);
        lemma_columns_push(front, m);
        crate::histogram_laws::counts_add_up(all_latencies(ls.drop_last()), l, b);
    }
}

/// The percentiles of the merged histograms are exact for the whole fleet: they
/// are those of all latencies of all agents taken together.
pub proof fn fleet_percentiles_are_exact(
    s: Seq<AgentMetricsMsg>,
    ls: Seq<Seq<u64>>,
    p: Fraction,
)
    requires
        s.len() == ls.len(),
        forall|i: int| 0 <= i < s.len() ==> reports_latencies(#[trigger] s[i], ls[i]),
        0 < all_latencies(ls).len() <= u64::MAX,
        crate::metrics::is_share(p),
    ensures
        ({
            let all = all_latencies(ls);
            let v = crate::metrics::percentile_of(
                agents_histogram(s),
                crate::number::total(requests_of(s)) as u64,
                p,
            );
            let rank = crate::number::rank(all.len(), p);
            &&& 0 <= v <= MAX_LATENCY_MS
            &&& crate::histogram_laws::count_upto(all, v) >= rank
            &&& v > 0 ==> crate::histogram_laws::count_upto(all, v - 1) < rank
        }),
{
    let all = all_latencies(ls);
    let counts = agents_histogram(s);
    lemma_fleet_counts(s, ls, 0);
    assert forall|b: int| 0 <= b < BUCKETS implies #[trigger] counts[b]
        == crate::histogram_laws::count_at(all, b) by {
        lemma_fleet_counts(s, ls, b);
        crate::histogram_laws::counts_at_most_all(all, b);
    }
    crate::histogram_laws::percentile_is_exact(counts, all, p);
}

/// Different agents get their shards on different subjects, all of them below that
/// of the shards.
pub proof fn shards_go_apart(a: Seq<char>, b: Seq<char>)
    ensures
        shard_subject(a).take("loadpilot.shard."@.len() as int) == "loadpilot.shard."@,
        shard_subject(a).skip("loadpilot.shard."@.len() as int) == a,
        shard_subject(a) == shard_subject(b) ==> a == b,
{
    let k = "loadpilot.shard."@.len() as int;
    assert(shard_subject(a).take(k) =~= "loadpilot.shard."@);
    assert(shard_subject(a).skip(k) =~= a);
    assert(shard_subject(b).skip(k) =~= b);
}

/// Pairs can be added exactly as long as no bucket overflows: a pair alone as long
/// as its own does, which is the last one from ten seconds on.
pub proof fn pairs_fit_in_their_buckets(counts: Seq<u64>, entry: [u64; 2])
    requires
        counts.len() == BUCKETS,
    ensures
        entry@[0] < 10_000 ==> merge_fits(counts, seq![entry]) == (counts[entry@[0] as int]
            + entry@[1] <= u64::MAX),
        entry@[0] >= 10_000 ==> merge_fits(counts, seq![entry]) == (counts[10_000] + entry@[1]
            <= u64::MAX),
{
    let entries = seq![entry];
    assert(entries.drop_last() =~= Seq::<[u64; 2]>::empty());
    assert forall|b: int| #[trigger] count_in(entries, b) == if crate::metrics::bucket_of(entry@[0])
        == b {
        entry@[1] as nat
    } else {
        0
    } by {
        assert(count_in(entries.drop_last(), b) == 0);
    }
    let at = crate::metrics::bucket_of(entry@[0]);
    assert(counts[at] + count_in(entries, at) == counts[at] + entry@[1]);
}

} // verus!

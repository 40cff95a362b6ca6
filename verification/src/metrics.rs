//! Latency histogram, request counters and the snapshots made of them.
use crate::map::StringMap;
use crate::number::Fraction;
use vstd::prelude::*;

verus! {

/// The highest bucket of a latency histogram: ten seconds.
pub const MAX_LATENCY_MS: u64 = 10_000;

/// How many buckets a latency histogram has: one for each millisecond.
pub const BUCKETS: usize = 10_001;

// ── Snapshots ─────────────────────────────────────────────────────────────────

/// The latencies of one report, in milliseconds.
#[derive(Clone, Copy, Debug, PartialEq, Eq, Structural)]
pub struct LatencySnapshot {
    pub p50_ms: Fraction,
    pub p95_ms: Fraction,
    pub p99_ms: Fraction,
    pub max_ms: Fraction,
    pub min_ms: Fraction,
    pub mean_ms: Fraction,
}

/// The part of a report that is about one task.
#[derive(Debug)]
pub struct TaskSnapshot {
    pub name: String,
    pub requests: u64,
    pub errors: u64,
    pub latency: LatencySnapshot,
}

/// The whole number `n` as a fraction.
pub open spec fn whole(n: int) -> Fraction {
    Fraction { num: n as u128, den: 1 }
}

// ── Percentiles ───────────────────────────────────────────────────────────────

/// The share that the given percentage stands for.
pub open spec fn percent(n: u128) -> Fraction {
    Fraction { num: n, den: 100 }
}

/// The bucket of a latency: the highest one takes everything above it.
pub open spec fn bucket_of(ms: u64) -> int {
    if ms < MAX_LATENCY_MS {
        ms as int
    } else {
        MAX_LATENCY_MS as int
    }
}

/// The first position at which the counts add up to `target`, or the number of
/// counts when they never do.
pub open spec fn reach(counts: Seq<u64>, target: int) -> int
    decreases counts.len(),
{
    if counts.len() == 0 {
        0
    } else if target <= counts[0] {
        0
    } else {
        1 + reach(counts.drop_first(), target - counts[0])
    }
}

/// The bucket at which the share `p` of `count` requests is reached.
pub open spec fn percentile_of(buckets: Seq<u64>, count: u64, p: Fraction) -> int {
    if count == 0 {
        0
    } else {
        let i = reach(buckets, crate::number::rank(count as nat, p));
        if i < buckets.len() {
            i
        } else {
            MAX_LATENCY_MS as int
        }
    }
}

/// A fraction whose parts fit in 64 bits.
pub open spec fn is_small(p: Fraction) -> bool {
    p.wf() && p.num <= u64::MAX && p.den <= u64::MAX
}

/// A share lies between nothing and everything, and its parts fit in 64 bits.
pub open spec fn is_share(p: Fraction) -> bool {
    p.wf() && p.num <= p.den <= u64::MAX
}

/// `total * p`, rounded up.
pub fn rank_of(total: u64, p: Fraction) -> (r: u128)
    requires
        is_small(p),
    ensures
        r == crate::number::rank(total as nat, p),
{
    proof {
        assert(0 <= total * p.num <= 0xffff_ffff_ffff_ffff * 0xffff_ffff_ffff_ffff)
            by (nonlinear_arith)
            requires
                0 <= total <= 0xffff_ffff_ffff_ffff,
                0 <= p.num <= 0xffff_ffff_ffff_ffff,
        ;
    }
    let product: u128 = total as u128 * p.num;
    let q: u128 = product / p.den;
    let r: u128 = product % p.den;
    proof {
        assert(q <= product) by (nonlinear_arith)
            requires
                q == product / p.den,
                p.den > 0,
                product >= 0,
        ;
    }
    if r == 0 {
        q
    } else {
        q + 1
    }
}

/// The bucket at which the share `p` of `count` requests is reached: 0 when
/// there are none, and the highest bucket when the counts fall short.
pub fn percentile_in(buckets: &Vec<u64>, count: u64, p: Fraction) -> (r: u64)
    requires
        buckets@.len() == BUCKETS,
        is_small(p),
    ensures
        r == percentile_of(buckets@, count, p),
        r <= MAX_LATENCY_MS,
{
    if count == 0 {
        return 0;
    }
    let target: u128 = rank_of(count, p);
    let mut cumulative: u128 = 0;
    let mut i: usize = 0;
    proof {
        assert(buckets@.skip(0) =~= buckets@);
    }
    while i < buckets.len()
        invariant
            buckets@.len() == BUCKETS,
            i <= buckets@.len(),
            cumulative <= i * u64::MAX,
            cumulative < target || i == 0,
            reach(buckets@, target as int) == i + reach(
                buckets@.skip(i as int),
                target - cumulative,
            ),
            target == crate::number::rank(count as nat, p),
            count > 0,
        decreases buckets@.len() - i,
    {
        let ghost rest = buckets@.skip(i as int);
        proof {
            assert(rest[0] == buckets@[i as int]);
            assert(rest.drop_first() =~= buckets@.skip(i + 1));
        }
        cumulative = cumulative + buckets[i] as u128;
        if cumulative >= target {
            return i as u64;
        }
        i = i + 1;
    }
    MAX_LATENCY_MS
}

/// The share that a percentage stands for.
pub fn share(percent_value: u128) -> (p: Fraction)
    requires
        percent_value <= 100,
    ensures
        p == percent(percent_value),
        is_share(p),
{
    Fraction { num: percent_value, den: 100 }
}

// ── Latency histogram ─────────────────────────────────────────────────────────

/// Latencies counted by the millisecond, with their number, sum and extremes.
///
/// The counters wrap around, as counters that many workers share do.
#[derive(Debug)]
pub struct LatencyHistogram {
    pub buckets: Vec<u64>,
    pub count: u64,
    pub sum_ms: u64,
    pub max_ms: u64,
    pub min_ms: u64,
}

/// What a histogram holds.
#[verifier::ext_equal]
pub struct HistogramModel {
    pub buckets: Seq<u64>,
    pub count: u64,
    pub sum_ms: u64,
    pub max_ms: u64,
    pub min_ms: u64,
}

/// Addition that wraps around at 64 bits.
pub open spec fn wrapped(a: u64, b: u64) -> u64 {
    ((a + b) % 0x1_0000_0000_0000_0000) as u64
}

/// The histogram without any latency.
pub open spec fn no_latencies() -> HistogramModel {
    HistogramModel {
        buckets: Seq::new(BUCKETS as nat, |i: int| 0u64),
        count: 0,
        sum_ms: 0,
        max_ms: 0,
        min_ms: u64::MAX,
    }
}

/// The histogram with one more latency.
pub open spec fn recorded(h: HistogramModel, ms: u64) -> HistogramModel {
    HistogramModel {
        buckets: h.buckets.update(bucket_of(ms), wrapped(h.buckets[bucket_of(ms)], 1)),
        count: wrapped(h.count, 1),
        sum_ms: wrapped(h.sum_ms, ms),
        max_ms: if ms > h.max_ms {
            ms
        } else {
            h.max_ms
        },
        min_ms: if ms < h.min_ms {
            ms
        } else {
            h.min_ms
        },
    }
}

/// The mean latency.
pub open spec fn mean_of(h: HistogramModel) -> Fraction {
    if h.count == 0 {
        Fraction { num: 0, den: 1 }
    } else {
        Fraction { num: h.sum_ms as u128, den: h.count as u128 }
    }
}

/// The least latency, or 0 when there is none.
pub open spec fn least_of(h: HistogramModel) -> u64 {
    if h.min_ms == u64::MAX {
        0
    } else {
        h.min_ms
    }
}

/// The report of a histogram.
pub open spec fn latency_of(h: HistogramModel) -> LatencySnapshot {
    LatencySnapshot {
        p50_ms: whole(percentile_of(h.buckets, h.count, percent(50))),
        p95_ms: whole(percentile_of(h.buckets, h.count, percent(95))),
        p99_ms: whole(percentile_of(h.buckets, h.count, percent(99))),
        max_ms: whole(h.max_ms as int),
        min_ms: whole(least_of(h) as int),
        mean_ms: mean_of(h),
    }
}

/// Adds one to a counter that wraps around.
pub fn bump(x: u64) -> (r: u64)
    ensures
        r == wrapped(x, 1),
{
    x.wrapping_add(1)
}

impl View for LatencyHistogram {
    type V = HistogramModel;

    open spec fn view(&self) -> HistogramModel {
        HistogramModel {
            buckets: self.buckets@,
            count: self.count,
            sum_ms: self.sum_ms,
            max_ms: self.max_ms,
            min_ms: self.min_ms,
        }
    }
}

impl LatencyHistogram {
    /// There is a bucket for each millisecond.
    pub open spec fn wf(self) -> bool {
        self.buckets@.len() == BUCKETS
    }

    /// A histogram without any latency.
    pub fn new() -> (h: LatencyHistogram)
        ensures
            h.wf(),
            h@ == no_latencies(),
    {
        let mut buckets: Vec<u64> = Vec::with_capacity(BUCKETS);
        let mut i: usize = 0;
        while i < BUCKETS
            invariant
                i <= BUCKETS,
                buckets@ == Seq::new(i as nat, |j: int| 0u64),
            decreases BUCKETS - i,
        {
            buckets.push(0);
            i = i + 1;
        }
        LatencyHistogram { buckets, count: 0, sum_ms: 0, max_ms: 0, min_ms: u64::MAX }
    }

    /// Counts a latency.
    pub fn record(&mut self, latency_ms: u64)
        requires
            old(self).wf(),
        ensures
            final(self).wf(),
            final(self)@ == recorded(old(self)@, latency_ms),
    {
        let bucket: usize = if latency_ms < MAX_LATENCY_MS {
            latency_ms as usize
        } else {
            MAX_LATENCY_MS as usize
        };
        let n: u64 = self.buckets[bucket];
        self.buckets.set(bucket, bump(n));
        self.count = bump(self.count);
        self.sum_ms = self.sum_ms.wrapping_add(latency_ms);
        if latency_ms > self.max_ms {
            self.max_ms = latency_ms;
        }
        if latency_ms < self.min_ms {
            self.min_ms = latency_ms;
        }
    }

    /// The latency below or at which the share `p` of the requests lies.
    pub fn percentile(&self, p: Fraction) -> (r: u64)
        requires
            self.wf(),
            is_small(p),
        ensures
            r == percentile_of(self.buckets@, self.count, p),
            r <= MAX_LATENCY_MS,
    {
        percentile_in(&self.buckets, self.count, p)
    }

    /// How many latencies were counted.
    pub fn count(&self) -> (n: u64)
        ensures
            n == self.count,
    {
        self.count
    }

    /// The mean latency: 0 when there is none.
    pub fn mean_ms(&self) -> (m: Fraction)
        ensures
            m == mean_of(self@),
            m.wf(),
    {
        if self.count == 0 {
            Fraction { num: 0, den: 1 }
        } else {
            Fraction { num: self.sum_ms as u128, den: self.count as u128 }
        }
    }

    /// The greatest latency: 0 when there is none.
    pub fn max_ms(&self) -> (m: u64)
        ensures
            m == self.max_ms,
    {
        self.max_ms
    }

    /// The least latency: 0 when there is none.
    pub fn min_ms(&self) -> (m: u64)
        ensures
            m == least_of(self@),
    {
        if self.min_ms == u64::MAX {
            0
        } else {
            self.min_ms
        }
    }

    /// The report of the histogram.
    pub fn snapshot(&self) -> (s: LatencySnapshot)
        requires
            self.wf(),
        ensures
            s == latency_of(self@),
    {
        LatencySnapshot {
            p50_ms: Fraction::whole(self.percentile(share(50))),
            p95_ms: Fraction::whole(self.percentile(share(95))),
            p99_ms: Fraction::whole(self.percentile(share(99))),
            max_ms: Fraction::whole(self.max_ms()),
            min_ms: Fraction::whole(self.min_ms()),
            mean_ms: self.mean_ms(),
        }
    }
}

// ── Counters by task ──────────────────────────────────────────────────────────

/// The counters of one task.
#[derive(Debug)]
pub struct TaskEntry {
    pub histogram: LatencyHistogram,
    pub requests: u64,
    pub errors: u64,
}

/// What the counters of one task hold.
#[verifier::ext_equal]
pub struct TaskEntryModel {
    pub histogram: HistogramModel,
    pub requests: u64,
    pub errors: u64,
}

impl View for TaskEntry {
    type V = TaskEntryModel;

    open spec fn view(&self) -> TaskEntryModel {
        TaskEntryModel {
            histogram: self.histogram@,
            requests: self.requests,
            errors: self.errors,
        }
    }
}

/// A task without any request.
pub open spec fn no_requests() -> TaskEntryModel {
    TaskEntryModel { histogram: no_latencies(), requests: 0, errors: 0 }
}

/// The counters with one more request.
pub open spec fn task_recorded(e: TaskEntryModel, ms: u64, failed: bool) -> TaskEntryModel {
    TaskEntryModel {
        histogram: recorded(e.histogram, ms),
        requests: wrapped(e.requests, 1),
        errors: if failed {
            wrapped(e.errors, 1)
        } else {
            e.errors
        },
    }
}

impl TaskEntry {
    /// The histogram is well formed.
    pub open spec fn wf(self) -> bool {
        self.histogram.wf()
    }

    /// Counters of a task without any request.
    pub fn new() -> (e: TaskEntry)
        ensures
            e.wf(),
            e@ == no_requests(),
    {
        TaskEntry { histogram: LatencyHistogram::new(), requests: 0, errors: 0 }
    }

    /// Counts a request.
    pub fn record(&mut self, latency_ms: u64, failed: bool)
        requires
            old(self).wf(),
        ensures
            final(self).wf(),
            final(self)@ == task_recorded(old(self)@, latency_ms, failed),
    {
        self.histogram.record(latency_ms);
        self.requests = bump(self.requests);
        if failed {
            self.errors = bump(self.errors);
        }
    }

    /// The report of the task, under the given name.
    pub fn snapshot(&self, name: String) -> (s: TaskSnapshot)
        requires
            self.wf(),
        ensures
            is_report(s, name@, self@),
    {
        TaskSnapshot {
            name,
            requests: self.requests,
            errors: self.errors,
            latency: self.histogram.snapshot(),
        }
    }
}

/// `s` is the report of the counters `e` under `name`.
pub open spec fn is_report(s: TaskSnapshot, name: Seq<char>, e: TaskEntryModel) -> bool {
    &&& s.name@ == name
    &&& s.requests == e.requests
    &&& s.errors == e.errors
    &&& s.latency == latency_of(e.histogram)
}

// ── Metrics of a run ──────────────────────────────────────────────────────────

/// The counters of a run: overall, for the current window, and by task.
#[derive(Debug)]
pub struct Metrics {
    pub histogram: LatencyHistogram,
    pub requests_total: u64,
    pub errors_total: u64,
    /// Requests of the current window.
    pub window_requests: u64,
    /// Errors of the current window.
    pub window_errors: u64,
    /// Counters by task name; a task appears with its first request.
    pub per_task: StringMap<TaskEntry>,
}

/// What the counters of a run hold.
#[verifier::ext_equal]
pub struct MetricsModel {
    pub histogram: HistogramModel,
    pub requests_total: u64,
    pub errors_total: u64,
    pub window_requests: u64,
    pub window_errors: u64,
    pub tasks: Map<Seq<char>, TaskEntryModel>,
}

/// What the counters of each task hold.
pub open spec fn task_models(m: Map<Seq<char>, TaskEntry>) -> Map<Seq<char>, TaskEntryModel> {
    m.map_values(|e: TaskEntry| e@)
}

impl View for Metrics {
    type V = MetricsModel;

    open spec fn view(&self) -> MetricsModel {
        MetricsModel {
            histogram: self.histogram@,
            requests_total: self.requests_total,
            errors_total: self.errors_total,
            window_requests: self.window_requests,
            window_errors: self.window_errors,
            tasks: task_models(self.per_task@),
        }
    }
}

/// The counters before any request.
pub open spec fn no_metrics() -> MetricsModel {
    MetricsModel {
        histogram: no_latencies(),
        requests_total: 0,
        errors_total: 0,
        window_requests: 0,
        window_errors: 0,
        tasks: Map::empty(),
    }
}

/// The counters with one more request that is not attributed to a task.
pub open spec fn counted(m: MetricsModel, ms: u64, failed: bool) -> MetricsModel {
    MetricsModel {
        histogram: recorded(m.histogram, ms),
        requests_total: wrapped(m.requests_total, 1),
        errors_total: if failed {
            wrapped(m.errors_total, 1)
        } else {
            m.errors_total
        },
        window_requests: wrapped(m.window_requests, 1),
        window_errors: if failed {
            wrapped(m.window_errors, 1)
        } else {
            m.window_errors
        },
        tasks: m.tasks,
    }
}

/// The counters of `task`, which are empty before its first request.
pub open spec fn entry_of(m: MetricsModel, task: Seq<char>) -> TaskEntryModel {
    if m.tasks.contains_key(task) {
        m.tasks[task]
    } else {
        no_requests()
    }
}

/// The counters with one more request of `task`.
pub open spec fn counted_task(m: MetricsModel, task: Seq<char>, ms: u64, failed: bool) -> MetricsModel {
    MetricsModel {
        tasks: m.tasks.insert(task, task_recorded(entry_of(m, task), ms, failed)),
        ..counted(m, ms, failed)
    }
}

impl Metrics {
    /// All histograms are well formed.
    pub open spec fn wf(self) -> bool {
        &&& self.histogram.wf()
        &&& forall|k: Seq<char>| #[trigger]
            self.per_task@.contains_key(k) ==> self.per_task@[k].wf()
    }

    /// The reports are those of the tasks, in the order of their names.
    pub open spec fn is_task_report(self, snaps: Seq<TaskSnapshot>) -> bool {
        task_report_of(self@.tasks, snaps)
    }

    /// Counters before any request.
    pub fn new() -> (m: Metrics)
        ensures
            m.wf(),
            m@ == no_metrics(),
    {
        let m = Metrics {
            histogram: LatencyHistogram::new(),
            requests_total: 0,
            errors_total: 0,
            window_requests: 0,
            window_errors: 0,
            per_task: StringMap::new(),
        };
        proof {
            assert(m@.tasks =~= Map::<Seq<char>, TaskEntryModel>::empty());
        }
        m
    }

    /// Counts a request that succeeded.
    pub fn record_success(&mut self, latency_ms: u64)
        requires
            old(self).wf(),
        ensures
            final(self).wf(),
            final(self)@ == counted(old(self)@, latency_ms, false),
    {
        self.histogram.record(latency_ms);
        self.requests_total = bump(self.requests_total);
        self.window_requests = bump(self.window_requests);
    }

    /// Counts a request that failed.
    pub fn record_error(&mut self, latency_ms: u64)
        requires
            old(self).wf(),
        ensures
            final(self).wf(),
            final(self)@ == counted(old(self)@, latency_ms, true),
    {
        self.histogram.record(latency_ms);
        self.requests_total = bump(self.requests_total);
        self.errors_total = bump(self.errors_total);
        self.window_requests = bump(self.window_requests);
        self.window_errors = bump(self.window_errors);
    }

    /// Takes out the counters of `task`, or empty ones before its first request.
    fn get_or_create_task(&mut self, task: &str) -> (e: TaskEntry)
        requires
            old(self).wf(),
        ensures
            e.wf(),
            e@ == entry_of(old(self)@, task@),
            final(self).wf(),
            final(self)@ == (MetricsModel { tasks: old(self)@.tasks.remove(task@), ..old(self)@ }),
    {
        let found = self.per_task.take(task);
        proof {
            assert(task_models(self.per_task@) =~= old(self)@.tasks.remove(task@));
        }
        match found {
            Some(e) => e,
            None => TaskEntry::new(),
        }
    }

    /// Counts a request in the counters of `task` alone.
    fn attribute(&mut self, task: &str, latency_ms: u64, failed: bool)
        requires
            old(self).wf(),
        ensures
            final(self).wf(),
            final(self)@ == (MetricsModel {
                tasks: old(self)@.tasks.insert(
                    task@,
                    task_recorded(entry_of(old(self)@, task@), latency_ms, failed),
                ),
                ..old(self)@
            }),
    {
        let mut entry = self.get_or_create_task(task);
        entry.record(latency_ms, failed);
        let ghost e = entry;
        let ghost before = self.per_task@;
        self.per_task.insert(task.to_string(), entry);
        proof {
            assert(self.per_task@ == before.insert(task@, e));
            assert(task_models(before) == old(self)@.tasks.remove(task@));
            assert(task_models(before.insert(task@, e)) =~= task_models(before).insert(task@, e@));
            assert(old(self)@.tasks.remove(task@).insert(task@, e@) =~= old(self)@.tasks.insert(
                task@,
                e@,
            ));
        }
    }

    /// Counts a request of `task` that succeeded.
    pub fn record_success_task(&mut self, task: &str, latency_ms: u64)
        requires
            old(self).wf(),
        ensures
            final(self).wf(),
            final(self)@ == counted_task(old(self)@, task@, latency_ms, false),
    {
        self.record_success(latency_ms);
        self.attribute(task, latency_ms, false);
    }

    /// Counts a request of `task` that failed.
    pub fn record_error_task(&mut self, task: &str, latency_ms: u64)
        requires
            old(self).wf(),
        ensures
            final(self).wf(),
            final(self)@ == counted_task(old(self)@, task@, latency_ms, true),
    {
        self.record_error(latency_ms);
        self.attribute(task, latency_ms, true);
    }

    /// The reports of all tasks, in the order of their names.
    pub fn task_snapshots(&self) -> (snaps: Vec<TaskSnapshot>)
        requires
            self.wf(),
        ensures
            self.is_task_report(snaps@),
    {
        let n: usize = self.per_task.len();
        let ghost keys = self.per_task.keys();
        let mut snaps: Vec<TaskSnapshot> = Vec::new();
        let mut i: usize = 0;
        while i < n
            invariant
                self.wf(),
                self.per_task.listed(),
                keys == self.per_task.keys(),
                n == keys.len(),
                i <= n,
                snaps@.len() == i,
                forall|j: int|
                    0 <= j < i ==> is_report(
                        #[trigger] snaps@[j],
                        keys[j],
                        self.per_task@[keys[j]]@,
                    ),
            decreases n - i,
        {
            let name = self.per_task.key_at(i).clone();
            let snap = self.per_task.value_at(i).snapshot(name);
            snaps.push(snap);
            i = i + 1;
        }
        proof {
            assert(self@.tasks.dom() =~= self.per_task@.dom());
            assert forall|k: Seq<char>| self@.tasks.contains_key(k) implies (exists|j: int|
                0 <= j < snaps@.len() && (#[trigger] snaps@[j]).name@ == k) by {
                assert(self.per_task@.contains_key(k));
                let j = keys.index_of(k);
                assert(snaps@[j].name@ == k);
            }
            assert forall|j: int| 0 <= j < snaps@.len() implies self@.tasks.contains_key(
                (#[trigger] snaps@[j]).name@,
            ) && is_report(snaps@[j], snaps@[j].name@, self@.tasks[snaps@[j].name@]) by {
                assert(self.per_task@.contains_key(keys[j]));
            }
            assert forall|i: int, j: int| 0 <= i < j < snaps@.len() implies crate::text::text_less(
                (#[trigger] snaps@[i]).name@,
                (#[trigger] snaps@[j]).name@,
            ) by {
                assert(crate::text::text_less(keys[i], keys[j]));
            }
        }
        snaps
    }

    /// The requests and errors of the current window; a new window begins.
    pub fn drain_window(&mut self) -> (r: (u64, u64))
        ensures
            r == (old(self).window_requests, old(self).window_errors),
            final(self)@ == (MetricsModel {
                window_requests: 0,
                window_errors: 0,
                ..old(self)@
            }),
            old(self).wf() ==> final(self).wf(),
    {
        let reqs: u64 = self.window_requests;
        let errs: u64 = self.window_errors;
        self.window_requests = 0;
        self.window_errors = 0;
        (reqs, errs)
    }
}

/// The reports are those of `tasks`: one for each, in the order of their names.
pub open spec fn task_report_of(
    tasks: Map<Seq<char>, TaskEntryModel>,
    snaps: Seq<TaskSnapshot>,
) -> bool {
    &&& forall|i: int, j: int|
        0 <= i < j < snaps.len() ==> crate::text::text_less(
            (#[trigger] snaps[i]).name@,
            (#[trigger] snaps[j]).name@,
        )
    &&& forall|j: int|
        0 <= j < snaps.len() ==> tasks.contains_key((#[trigger] snaps[j]).name@) && is_report(
            snaps[j],
            snaps[j].name@,
            tasks[snaps[j].name@],
        )
    &&& forall|k: Seq<char>| #[trigger]
        tasks.contains_key(k) ==> exists|j: int|
            0 <= j < snaps.len() && (#[trigger] snaps[j]).name@ == k
}

// ── Laws of the models ────────────────────────────────────────────────────────

/// A whole number is that number over one.
pub proof fn whole_numbers_are_whole(n: int)
    requires
        0 <= n <= u128::MAX,
    ensures
        whole(n).num == n,
        whole(n).den == 1,
{
}

/// Counters count up, and from the last number on from zero again.
pub proof fn counters_wrap_around(a: u64, b: u64)
    ensures
        a + b <= u64::MAX ==> wrapped(a, b) == a + b,
        a + b > u64::MAX ==> wrapped(a, b) + 0x1_0000_0000_0000_0000 == a + b,
{
}

/// The model of the counters of a run is what they hold.
pub proof fn metrics_are_their_model(m: Metrics, task: Seq<char>)
    ensures
        m@.histogram.buckets == m.histogram.buckets@,
        m@.histogram.count == m.histogram.count,
        m@.histogram.sum_ms == m.histogram.sum_ms,
        m@.histogram.max_ms == m.histogram.max_ms,
        m@.histogram.min_ms == m.histogram.min_ms,
        m@.requests_total == m.requests_total,
        m@.errors_total == m.errors_total,
        m@.window_requests == m.window_requests,
        m@.window_errors == m.window_errors,
        m@.tasks.contains_key(task) <==> m.per_task@.contains_key(task),
        m.per_task@.contains_key(task) ==> {
            let e = m.per_task@[task];
            &&& m@.tasks[task].requests == e.requests
            &&& m@.tasks[task].errors == e.errors
            &&& m@.tasks[task].histogram.buckets == e.histogram.buckets@
            &&& m@.tasks[task].histogram.count == e.histogram.count
            &&& m@.tasks[task].histogram.sum_ms == e.histogram.sum_ms
            &&& m@.tasks[task].histogram.max_ms == e.histogram.max_ms
            &&& m@.tasks[task].histogram.min_ms == e.histogram.min_ms
        },
{
}

/// The reports by task name each task once, in order, and state its own counters.
pub proof fn task_reports_state_their_counters(
    m: Metrics,
    snaps: Seq<TaskSnapshot>,
    i: int,
    j: int,
    task: Seq<char>,
)
    requires
        m.is_task_report(snaps),
        0 <= j < snaps.len(),
    ensures
        m.per_task@.contains_key(snaps[j].name@),
        snaps[j].requests == m.per_task@[snaps[j].name@].requests,
        snaps[j].errors == m.per_task@[snaps[j].name@].errors,
        0 <= i < j ==> crate::text::text_less(snaps[i].name@, snaps[j].name@),
        m.per_task@.contains_key(task) ==> exists|k: int|
            0 <= k < snaps.len() && (#[trigger] snaps[k]).name@ == task,
{
    metrics_are_their_model(m, snaps[j].name@);
    metrics_are_their_model(m, task);
    assert(m@.tasks.contains_key(snaps[j].name@));
}

} // verus!

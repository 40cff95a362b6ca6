//! What reports say of the requests that were counted, in plain numbers.
use crate::coordinator::MetricsSnapshot;
use crate::histogram_laws::Outcome;
use crate::metrics::LatencySnapshot;
use crate::metrics::MetricsModel;
use crate::number::Fraction;
use crate::vuser::CallResult;
use vstd::prelude::*;

verus! {

// ── Ranks ─────────────────────────────────────────────────────────────────────

/// How many of the latencies are at most `ms`.
pub open spec fn at_most(ls: Seq<u64>, ms: int) -> nat
    decreases ls.len(),
{
    if ls.len() == 0 {
        0
    } else {
        at_most(ls.drop_last(), ms) + (if ls.last() <= ms {
            1nat
        } else {
            0nat
        })
    }
}

/// The fraction is a whole number of milliseconds, no more than ten seconds, at
/// or below which `percent` percent of `n` requests lie, while fewer lie below
/// it. `upto` tells how many lie at or below a latency; ten seconds stand for
/// everything from there on.
pub open spec fn has_rank(f: Fraction, upto: spec_fn(int) -> nat, n: nat, percent: int) -> bool {
    &&& f.den == 1
    &&& f.num <= 10_000
    &&& f.num < 10_000 ==> upto(f.num as int) * 100 >= percent * n
    &&& f.num > 0 ==> upto(f.num - 1) * 100 < percent * n
}

pub(crate) proof fn lemma_first_counts(counts: Seq<u64>, upto: spec_fn(int) -> nat, k: int)
    requires
        0 <= k <= counts.len(),
        upto(-1) == 0,
        forall|b: int| 0 <= b < k ==> #[trigger] counts[b] == upto(b) - upto(b - 1),
    ensures
        crate::histogram_laws::first_counts(counts, k) == upto(k - 1),
    decreases k,
{
    if k > 0 {
        lemma_first_counts(counts, upto, k - 1);
        crate::histogram_laws::first_counts_step(counts, k - 1);
        assert(counts[k - 1] == upto(k - 1) - upto(k - 2));
    }
}

/// The percentile of counts has the rank of its percentage.
pub proof fn percentiles_have_their_rank(
    counts: Seq<u64>,
    upto: spec_fn(int) -> nat,
    n: u64,
    percent: u128,
)
    requires
        counts.len() == crate::metrics::BUCKETS,
        upto(-1) == 0,
        forall|b: int| 0 <= b < 10_000 ==> #[trigger] counts[b] == upto(b) - upto(b - 1),
        n > 0,
    ensures
        has_rank(
            crate::metrics::whole(
                crate::metrics::percentile_of(counts, n, crate::metrics::percent(percent)),
            ),
            upto,
            n as nat,
            percent as int,
        ),
{
    let p = crate::metrics::percent(percent);
    let rank = crate::number::rank(n as nat, p);
    let i = crate::metrics::reach(counts, rank);
    crate::histogram_laws::reach_is_first(counts, rank);
    assert(n * percent == percent * n) by (nonlinear_arith);
    let x = n * percent;
    assert(rank * 100 >= x && rank * 100 < x + 100);
    if i < 10_000 {
        lemma_first_counts(counts, upto, i + 1);
    }
    if 0 < i <= 10_000 {
        lemma_first_counts(counts, upto, i);
    }
    if i > 10_000 {
        lemma_first_counts(counts, upto, 10_000);
        crate::histogram_laws::first_counts_step(counts, 10_000);
    }
}

// ── Histograms ────────────────────────────────────────────────────────────────

/// A latency is at most `b` where it is at most `b - 1` or falls into bucket `b`.
pub proof fn at_most_step(ls: Seq<u64>, b: int)
    requires
        0 <= b < 10_000,
    ensures
        at_most(ls, b) == at_most(ls, b - 1) + crate::histogram_laws::count_at(ls, b),
    decreases ls.len(),
{
    if ls.len() > 0 {
        at_most_step(ls.drop_last(), b);
    }
}

/// No latency is below zero.
pub proof fn at_most_nothing(ls: Seq<u64>)
    ensures
        at_most(ls, -1) == 0,
    decreases ls.len(),
{
    if ls.len() > 0 {
        at_most_nothing(ls.drop_last());
    }
}

/// Every latency is below ten seconds or falls into the last bucket.
pub proof fn at_most_rest(ls: Seq<u64>)
    ensures
        ls.len() == at_most(ls, 9_999) + crate::histogram_laws::count_at(ls, 10_000),
    decreases ls.len(),
{
    if ls.len() > 0 {
        at_most_rest(ls.drop_last());
    }
}

/// `s` says of the latencies what a report has to: the ranks of its percentiles,
/// the greatest and the least of them, and their mean.
pub open spec fn describes(s: LatencySnapshot, ls: Seq<u64>) -> bool {
    let upto = |ms: int| at_most(ls, ms);
    &&& has_rank(s.p50_ms, upto, ls.len(), 50)
    &&& has_rank(s.p95_ms, upto, ls.len(), 95)
    &&& has_rank(s.p99_ms, upto, ls.len(), 99)
    &&& s.max_ms.den == 1
    &&& s.max_ms.num <= u64::MAX
    &&& ls.contains(s.max_ms.num as u64)
    &&& forall|i: int| 0 <= i < ls.len() ==> #[trigger] ls[i] <= s.max_ms.num
    &&& s.min_ms.den == 1
    &&& s.min_ms.num <= u64::MAX
    &&& forall|i: int| 0 <= i < ls.len() ==> s.min_ms.num <= #[trigger] ls[i]
    &&& forall|i: int|
        0 <= i < ls.len() && #[trigger] ls[i] < u64::MAX ==> ls.contains(s.min_ms.num as u64)
    &&& s.mean_ms.den == ls.len()
    &&& crate::histogram_laws::sum_of(ls) <= u64::MAX ==> s.mean_ms.num
        == crate::histogram_laws::sum_of(ls)
}

/// The report of a histogram describes the latencies that were counted: its 50th,
/// 95th and 99th percentile are the latencies of these ranks, up to ten seconds,
/// and it knows their extremes and their mean.
pub proof fn histogram_report_describes_latencies(ls: Seq<u64>)
    requires
        0 < ls.len() <= u64::MAX,
    ensures
        describes(
            crate::metrics::latency_of(crate::histogram_laws::histogram_of(ls)),
            ls,
        ),
{
    let h = crate::histogram_laws::histogram_of(ls);
    let upto = |ms: int| at_most(ls, ms);
    crate::histogram_laws::histogram_counts(ls);
    at_most_nothing(ls);
    assert forall|b: int| 0 <= b < 10_000 implies #[trigger] h.buckets[b] == upto(b) - upto(
        b - 1,
    ) by {
        at_most_step(ls, b);
    }
    percentiles_have_their_rank(h.buckets, upto, h.count, 50);
    percentiles_have_their_rank(h.buckets, upto, h.count, 95);
    percentiles_have_their_rank(h.buckets, upto, h.count, 99);
    assert forall|i: int| 0 <= i < ls.len() && #[trigger] ls[i] < u64::MAX implies ls.contains(
        crate::metrics::latency_of(h).min_ms.num as u64,
    ) by {
        assert(h.min_ms <= ls[i]);
    }
}

/// Before the first latency a report says zero throughout.
pub proof fn nothing_counted_reports_zero()
    ensures
        ({
            let s = crate::metrics::latency_of(crate::metrics::no_latencies());
            let zero = Fraction { num: 0, den: 1 };
            &&& s.p50_ms == zero
            &&& s.p95_ms == zero
            &&& s.p99_ms == zero
            &&& s.max_ms == zero
            &&& s.min_ms == zero
            &&& s.mean_ms == zero
        }),
{
}

// ── A run ─────────────────────────────────────────────────────────────────────

/// What comes back in the course of a run.
pub enum Back {
    /// A request that went out as the plan gives it, with a status or with none.
    Request { task: Seq<char>, latency_ms: u64, status: Option<u16> },
    /// A task of a virtual user, with its calls or with none where it could not
    /// be run.
    Task { task: Seq<char>, calls: Option<Seq<CallResult>> },
    /// A report was made.
    Report,
}

/// The counters of a run after `b`.
pub open spec fn after_back(m: MetricsModel, b: Back) -> MetricsModel {
    match b {
        Back::Request { task, latency_ms, status } => crate::metrics::counted_task(
            m,
            task,
            latency_ms,
            !(status matches Some(s) && s < 400),
        ),
        Back::Task { task, calls } => match calls {
            Some(cs) => crate::coordinator::calls_counted(m, task, cs),
            None => crate::metrics::counted_task(m, task, 0, true),
        },
        Back::Report => MetricsModel { window_requests: 0, window_errors: 0, ..m },
    }
}

/// The counters of a run after all of these, one after the other.
pub open spec fn after_all(m: MetricsModel, bs: Seq<Back>) -> MetricsModel
    decreases bs.len(),
{
    if bs.len() == 0 {
        m
    } else {
        after_back(after_all(m, bs.drop_last()), bs.last())
    }
}

/// One outcome for each of the calls.
pub open spec fn call_outcomes(task: Seq<char>, calls: Seq<CallResult>) -> Seq<Outcome> {
    calls.map_values(
        |c: CallResult| Outcome { task, latency_ms: c.elapsed_ms, failed: !c.success },
    )
}

/// What has to be counted for `b`: a request that got a status below 400 is a
/// success, each call of a task counts with its own latency, and a task without
/// any call is one failure without latency.
pub open spec fn outcomes_of(b: Back) -> Seq<Outcome> {
    match b {
        Back::Request { task, latency_ms, status } => match status {
            Some(s) => seq![Outcome { task, latency_ms, failed: s >= 400 }],
            None => seq![Outcome { task, latency_ms, failed: true }],
        },
        Back::Task { task, calls } => match calls {
            Some(cs) => if cs.len() > 0 {
                call_outcomes(task, cs)
            } else {
                seq![Outcome { task, latency_ms: 0, failed: true }]
            },
            None => seq![Outcome { task, latency_ms: 0, failed: true }],
        },
        Back::Report => seq![],
    }
}

/// What has to be counted for all of these.
pub open spec fn all_outcomes(bs: Seq<Back>) -> Seq<Outcome>
    decreases bs.len(),
{
    if bs.len() == 0 {
        seq![]
    } else {
        all_outcomes(bs.drop_last()) + outcomes_of(bs.last())
    }
}

/// The counters agree in all but the window.
spec fn same_totals(a: MetricsModel, b: MetricsModel) -> bool {
    &&& a.histogram == b.histogram
    &&& a.requests_total == b.requests_total
    &&& a.errors_total == b.errors_total
    &&& a.tasks == b.tasks
}

proof fn lemma_counted_joins(m: MetricsModel, a: Seq<Outcome>, b: Seq<Outcome>)
    ensures
        crate::histogram_laws::all_counted(m, a + b) == crate::histogram_laws::all_counted(crate::histogram_laws::all_counted(m, a), b),
    decreases b.len(),
{
    if b.len() == 0 {
        assert(a + b =~= a);
    } else {
        assert((a + b).drop_last() =~= a + b.drop_last());
        lemma_counted_joins(m, a, b.drop_last());
    }
}

proof fn lemma_counted_alike(m: MetricsModel, n: MetricsModel, os: Seq<Outcome>)
    requires
        same_totals(m, n),
    ensures
        same_totals(crate::histogram_laws::all_counted(m, os), crate::histogram_laws::all_counted(n, os)),
    decreases os.len(),
{
    if os.len() > 0 {
        lemma_counted_alike(m, n, os.drop_last());
        let a = crate::histogram_laws::all_counted(m, os.drop_last());
        let b = crate::histogram_laws::all_counted(n, os.drop_last());
        assert(crate::metrics::entry_of(a, os.last().task) == crate::metrics::entry_of(
            b,
            os.last().task,
        ));
    }
}

proof fn lemma_calls_counted(m: MetricsModel, task: Seq<char>, calls: Seq<CallResult>)
    ensures
        crate::coordinator::each_counted(m, task, calls) == crate::histogram_laws::all_counted(
            m,
            call_outcomes(task, calls),
        ),
    decreases calls.len(),
{
    if calls.len() > 0 {
        lemma_calls_counted(m, task, calls.drop_last());
        assert(call_outcomes(task, calls).drop_last() =~= call_outcomes(task, calls.drop_last()));
    }
}

proof fn lemma_one_counted(m: MetricsModel, o: Outcome)
    ensures
        crate::histogram_laws::all_counted(m, seq![o]) == crate::metrics::counted_task(m, o.task, o.latency_ms, o.failed),
{
    assert(seq![o].drop_last() =~= Seq::<Outcome>::empty());
    assert(crate::histogram_laws::all_counted(m, Seq::<Outcome>::empty()) == m);
}

proof fn lemma_back_counted(m: MetricsModel, b: Back)
    ensures
        !(b is Report) ==> after_back(m, b) == crate::histogram_laws::all_counted(
            m,
            outcomes_of(b),
        ),
        same_totals(after_back(m, b), crate::histogram_laws::all_counted(m, outcomes_of(b))),
{
    match b {
        Back::Request { task, latency_ms, status } => {
            let failed = match status {
                Some(s) => s >= 400,
                None => true,
            };
            lemma_one_counted(m, Outcome { task, latency_ms, failed });
        },
        Back::Task { task, calls } => {
            lemma_one_counted(m, Outcome { task, latency_ms: 0, failed: true });
            if let Some(cs) = calls {
                lemma_calls_counted(m, task, cs);
            }
        },
        Back::Report => {},
    }
}

proof fn lemma_all_back_counted(bs: Seq<Back>)
    ensures
        same_totals(
            after_all(crate::metrics::no_metrics(), bs),
            crate::histogram_laws::all_counted(crate::metrics::no_metrics(), all_outcomes(bs)),
        ),
    decreases bs.len(),
{
    if bs.len() > 0 {
        let front = bs.drop_last();
        lemma_all_back_counted(front);
        let m = after_all(crate::metrics::no_metrics(), front);
        let n = crate::histogram_laws::all_counted(crate::metrics::no_metrics(), all_outcomes(front));
        lemma_back_counted(m, bs.last());
        lemma_counted_alike(m, n, outcomes_of(bs.last()));
        lemma_counted_joins(
            crate::metrics::no_metrics(),
            all_outcomes(front),
            outcomes_of(bs.last()),
        );
    }
}

/// A report of a run states what came back: the number of requests and of
/// failures among them and their latencies, overall and for each task, where
/// every call of a virtual user's task counts with its own latency.
pub proof fn run_report_is_exact(bs: Seq<Back>, s: MetricsSnapshot)
    requires
        all_outcomes(bs).len() <= u64::MAX,
        crate::coordinator::reports_counters(s, after_all(crate::metrics::no_metrics(), bs)),
    ensures
        s.requests_total == all_outcomes(bs).len(),
        s.errors_total == crate::histogram_laws::failures(all_outcomes(bs)),
        all_outcomes(bs).len() > 0 ==> describes(s.latency, crate::histogram_laws::latencies(all_outcomes(bs))),
        forall|i: int, j: int|
            0 <= i < j < s.tasks@.len() ==> crate::text::text_less(
                (#[trigger] s.tasks@[i]).name@,
                (#[trigger] s.tasks@[j]).name@,
            ),
        forall|name: Seq<char>| #[trigger]
            crate::histogram_laws::has_report(s.tasks@, name) <==> crate::histogram_laws::of_task(
                all_outcomes(bs),
                name,
            ).len() > 0,
        forall|j: int|
            0 <= j < s.tasks@.len() ==> {
                let mine = crate::histogram_laws::of_task(all_outcomes(bs), (#[trigger] s.tasks@[j]).name@);
                &&& s.tasks@[j].requests == mine.len()
                &&& s.tasks@[j].errors == crate::histogram_laws::failures(mine)
                &&& describes(s.tasks@[j].latency, crate::histogram_laws::latencies(mine))
            },
{
    let os = all_outcomes(bs);
    let m = after_all(crate::metrics::no_metrics(), bs);
    lemma_all_back_counted(bs);
    crate::histogram_laws::metrics_count_every_outcome(os);
    if os.len() > 0 {
        histogram_report_describes_latencies(crate::histogram_laws::latencies(os));
    }
    assert forall|name: Seq<char>| #[trigger]
        crate::histogram_laws::has_report(s.tasks@, name) <==> crate::histogram_laws::of_task(os, name).len() > 0 by {
        crate::histogram_laws::tasks_count_their_outcomes(os, name);
        assert(m.tasks.contains_key(name) <==> crate::histogram_laws::of_task(os, name).len() > 0);
    }
    assert forall|j: int| 0 <= j < s.tasks@.len() implies {
        let mine = crate::histogram_laws::of_task(os, (#[trigger] s.tasks@[j]).name@);
        &&& s.tasks@[j].requests == mine.len()
        &&& s.tasks@[j].errors == crate::histogram_laws::failures(mine)
        &&& describes(s.tasks@[j].latency, crate::histogram_laws::latencies(mine))
    } by {
        let name = s.tasks@[j].name@;
        crate::histogram_laws::tasks_count_their_outcomes(os, name);
        crate::histogram_laws::of_task_bound(os, name);
        assert(m.tasks.contains_key(name));
        histogram_report_describes_latencies(crate::histogram_laws::latencies(crate::histogram_laws::of_task(os, name)));
    }
}

proof fn lemma_window_counted(m: MetricsModel, os: Seq<Outcome>)
    requires
        m.window_requests == 0,
        m.window_errors == 0,
        os.len() <= u64::MAX,
    ensures
        crate::histogram_laws::all_counted(m, os).window_requests == os.len(),
        crate::histogram_laws::all_counted(m, os).window_errors == crate::histogram_laws::failures(
            os,
        ),
        crate::histogram_laws::failures(os) <= os.len(),
    decreases os.len(),
{
    if os.len() > 0 {
        lemma_window_counted(m, os.drop_last());
    }
}

/// A report begins a new window, and from then on the window counts all that
/// comes back until the next one, and nothing else.
pub proof fn windows_count_what_comes_back(m: MetricsModel, bs: Seq<Back>)
    requires
        forall|i: int| 0 <= i < bs.len() ==> !(#[trigger] bs[i] is Report),
        all_outcomes(bs).len() <= u64::MAX,
    ensures
        after_all(after_back(m, Back::Report), bs).window_requests == all_outcomes(bs).len(),
        after_all(after_back(m, Back::Report), bs).window_errors
            == crate::histogram_laws::failures(all_outcomes(bs)),
{
    let start = after_back(m, Back::Report);
    lemma_unreported(start, bs);
    lemma_window_counted(start, all_outcomes(bs));
}

proof fn lemma_unreported(m: MetricsModel, bs: Seq<Back>)
    requires
        forall|i: int| 0 <= i < bs.len() ==> !(#[trigger] bs[i] is Report),
    ensures
        after_all(m, bs) == crate::histogram_laws::all_counted(m, all_outcomes(bs)),
    decreases bs.len(),
{
    if bs.len() > 0 {
        let front = bs.drop_last();
        assert forall|i: int| 0 <= i < front.len() implies !(#[trigger] front[i] is Report) by {
            assert(front[i] == bs[i]);
        }
        lemma_unreported(m, front);
        assert(bs[bs.len() - 1] == bs.last());
        lemma_back_counted(after_all(m, front), bs.last());
        lemma_counted_joins(m, all_outcomes(front), outcomes_of(bs.last()));
    }
}

/// The calls of a virtual user's task are recorded in order: the histogram of the
/// run, and that of the task, is the earlier one with the latency of each call,
/// and the errors grow by the calls that did not succeed. The counters of other
/// tasks stay as they are.
pub proof fn calls_are_recorded_in_order(m: MetricsModel, task: Seq<char>, calls: Seq<CallResult>)
    requires
        calls.len() > 0,
        m.requests_total + calls.len() <= u64::MAX,
        m.errors_total + calls.len() <= u64::MAX,
        crate::metrics::entry_of(m, task).requests + calls.len() <= u64::MAX,
        crate::metrics::entry_of(m, task).errors + calls.len() <= u64::MAX,
    ensures
        are_recorded(crate::coordinator::calls_counted(m, task, calls), m, task, calls),
{
    lemma_each_recorded(m, task, calls);
}

/// The counters `a` are `m` with the calls of `task` recorded in order.
pub open spec fn are_recorded(
    a: MetricsModel,
    m: MetricsModel,
    task: Seq<char>,
    calls: Seq<CallResult>,
) -> bool {
    let ls = calls.map_values(|c: CallResult| c.elapsed_ms);
    let before = crate::metrics::entry_of(m, task);
    let after = crate::metrics::entry_of(a, task);
    &&& a.histogram == crate::histogram_laws::all_recorded(m.histogram, ls)
    &&& a.requests_total == m.requests_total + calls.len()
    &&& a.errors_total == m.errors_total + unsuccessful(calls)
    &&& calls.len() > 0 ==> a.tasks.contains_key(task)
    &&& after.histogram == crate::histogram_laws::all_recorded(before.histogram, ls)
    &&& after.requests == before.requests + calls.len()
    &&& after.errors == before.errors + unsuccessful(calls)
    &&& a.tasks.remove(task) == m.tasks.remove(task)
}

proof fn lemma_step_recorded(b: MetricsModel, task: Seq<char>, c: CallResult)
    requires
        b.requests_total < u64::MAX,
        b.errors_total < u64::MAX,
        crate::metrics::entry_of(b, task).requests < u64::MAX,
        crate::metrics::entry_of(b, task).errors < u64::MAX,
    ensures
        ({
            let a = crate::metrics::counted_task(b, task, c.elapsed_ms, !c.success);
            let before = crate::metrics::entry_of(b, task);
            let after = crate::metrics::entry_of(a, task);
            let failed: int = if c.success {
                0
            } else {
                1
            };
            &&& a.histogram == crate::metrics::recorded(b.histogram, c.elapsed_ms)
            &&& a.requests_total == b.requests_total + 1
            &&& a.errors_total == b.errors_total + failed
            &&& a.tasks.contains_key(task)
            &&& after.histogram == crate::metrics::recorded(before.histogram, c.elapsed_ms)
            &&& after.requests == before.requests + 1
            &&& after.errors == before.errors + failed
            &&& a.tasks.remove(task) == b.tasks.remove(task)
        }),
{
    let a = crate::metrics::counted_task(b, task, c.elapsed_ms, !c.success);
    assert(a.tasks.remove(task) =~= b.tasks.remove(task));
}

proof fn lemma_each_recorded(m: MetricsModel, task: Seq<char>, calls: Seq<CallResult>)
    requires
        m.requests_total + calls.len() <= u64::MAX,
        m.errors_total + calls.len() <= u64::MAX,
        crate::metrics::entry_of(m, task).requests + calls.len() <= u64::MAX,
        crate::metrics::entry_of(m, task).errors + calls.len() <= u64::MAX,
    ensures
        are_recorded(crate::coordinator::each_counted(m, task, calls), m, task, calls),
    decreases calls.len(),
{
    let ls = calls.map_values(|c: CallResult| c.elapsed_ms);
    if calls.len() == 0 {
        assert(ls =~= Seq::<u64>::empty());
    } else {
        let front = calls.drop_last();
        lemma_each_recorded(m, task, front);
        lemma_unsuccessful_bound(front);
        assert(ls.drop_last() =~= front.map_values(|c: CallResult| c.elapsed_ms));
        lemma_step_recorded(
            crate::coordinator::each_counted(m, task, front),
            task,
            calls.last(),
        );
    }
}

/// How many of the calls did not succeed.
pub open spec fn unsuccessful(calls: Seq<CallResult>) -> nat
    decreases calls.len(),
{
    if calls.len() == 0 {
        0
    } else {
        unsuccessful(calls.drop_last()) + (if calls.last().success {
            0nat
        } else {
            1nat
        })
    }
}

proof fn lemma_unsuccessful_bound(calls: Seq<CallResult>)
    ensures
        unsuccessful(calls) <= calls.len(),
    decreases calls.len(),
{
    if calls.len() > 0 {
        lemma_unsuccessful_bound(calls.drop_last());
    }
}

/// A single call on an empty run is its least and its greatest latency and their
/// sum, overall and for its task.
pub proof fn single_call_is_all_there_is(task: Seq<char>, c: CallResult)
    ensures
        ({
            let a = crate::coordinator::calls_counted(crate::metrics::no_metrics(), task, seq![c]);
            let h = a.histogram;
            &&& h.count == 1
            &&& h.min_ms == c.elapsed_ms
            &&& h.max_ms == c.elapsed_ms
            &&& h.sum_ms == c.elapsed_ms
            &&& a.requests_total == 1
            &&& a.errors_total == (if c.success {
                0int
            } else {
                1
            })
            &&& a.tasks.contains_key(task)
            &&& a.tasks[task].histogram == h
        }),
{
    let calls = seq![c];
    assert(calls.drop_last() =~= Seq::<CallResult>::empty());
    assert(crate::coordinator::each_counted(
        crate::metrics::no_metrics(),
        task,
        calls.drop_last(),
    ) == crate::metrics::no_metrics());
}

/// A request that belongs to no task is counted as any other, but for the tasks.
pub proof fn requests_without_a_task(m: MetricsModel, task: Seq<char>, ms: u64, failed: bool)
    ensures
        ({
            let a = crate::metrics::counted(m, ms, failed);
            let b = crate::metrics::counted_task(m, task, ms, failed);
            &&& a.histogram == b.histogram
            &&& a.requests_total == b.requests_total
            &&& a.errors_total == b.errors_total
            &&& a.window_requests == b.window_requests
            &&& a.window_errors == b.window_errors
            &&& a.tasks == m.tasks
        }),
{
}

// ── Shares ────────────────────────────────────────────────────────────────────

/// The percentile of counts for any share: at or below it lies at least that share
/// of the requests, and less lies below it. Ten seconds stand for everything from
/// there on.
pub proof fn shares_have_their_rank(
    counts: Seq<u64>,
    upto: spec_fn(int) -> nat,
    n: u64,
    p: Fraction,
)
    requires
        counts.len() == crate::metrics::BUCKETS,
        upto(-1) == 0,
        forall|b: int| 0 <= b < 10_000 ==> #[trigger] counts[b] == upto(b) - upto(b - 1),
        n > 0,
        p.den > 0,
    ensures
        ({
            let v = crate::metrics::percentile_of(counts, n, p);
            &&& 0 <= v <= 10_000
            &&& v < 10_000 ==> upto(v) * p.den >= p.num * n
            &&& v > 0 ==> upto(v - 1) * p.den < p.num * n
        }),
{
    let rank = crate::number::rank(n as nat, p);
    let i = crate::metrics::reach(counts, rank);
    let x = n * p.num;
    let d = p.den as int;
    crate::histogram_laws::reach_is_first(counts, rank);
    vstd::arithmetic::div_mod::lemma_fundamental_div_mod(x, d);
    let q = x / d;
    let r = x % d;
    assert(n * p.num == p.num * n) by (nonlinear_arith);
    assert(rank * d >= x && (rank - 1) * d < x) by (nonlinear_arith)
        requires
            x == d * q + r,
            0 <= r < d,
            (r == 0 && rank == q) || (r > 0 && rank == q + 1),
    ;
    if i < 10_000 {
        lemma_first_counts(counts, upto, i + 1);
        let u = upto(i) as int;
        assert(u * d >= x) by (nonlinear_arith)
            requires
                u >= rank,
                rank * d >= x,
                d > 0,
        ;
    }
    let low = if i > 10_000 {
        10_000
    } else {
        i
    };
    if i > 0 {
        lemma_first_counts(counts, upto, low);
        if i > 10_000 {
            crate::histogram_laws::first_counts_step(counts, 10_000);
        }
        let u = upto(low - 1) as int;
        assert(u * d < x) by (nonlinear_arith)
            requires
                u <= rank - 1,
                (rank - 1) * d < x,
                d > 0,
        ;
    }
}

} // verus!

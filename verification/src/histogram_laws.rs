//! What a latency histogram says about the latencies that were counted in it.
use crate::metrics::HistogramModel;
use crate::metrics::MetricsModel;
use crate::metrics::TaskEntryModel;
use crate::metrics::TaskSnapshot;
use crate::number::Fraction;
use vstd::prelude::*;

verus! {

/// The histogram after the latencies `ls` were counted, one after the other.
pub open spec fn all_recorded(h: HistogramModel, ls: Seq<u64>) -> HistogramModel
    decreases ls.len(),
{
    if ls.len() == 0 {
        h
    } else {
        crate::metrics::recorded(all_recorded(h, ls.drop_last()), ls.last())
    }
}

/// The histogram of the latencies `ls`.
pub open spec fn histogram_of(ls: Seq<u64>) -> HistogramModel {
    all_recorded(crate::metrics::no_latencies(), ls)
}

/// How many of `ls` fall into bucket `b`.
pub open spec fn count_at(ls: Seq<u64>, b: int) -> nat
    decreases ls.len(),
{
    if ls.len() == 0 {
        0
    } else {
        count_at(ls.drop_last(), b) + (if crate::metrics::bucket_of(ls.last()) == b {
            1nat
        } else {
            0nat
        })
    }
}

/// How many of `ls` fall into bucket `b` or a lower one.
pub open spec fn count_upto(ls: Seq<u64>, b: int) -> nat
    decreases ls.len(),
{
    if ls.len() == 0 {
        0
    } else {
        count_upto(ls.drop_last(), b) + (if crate::metrics::bucket_of(ls.last()) <= b {
            1nat
        } else {
            0nat
        })
    }
}

/// The sum of the latencies.
pub open spec fn sum_of(ls: Seq<u64>) -> nat
    decreases ls.len(),
{
    if ls.len() == 0 {
        0
    } else {
        sum_of(ls.drop_last()) + ls.last() as nat
    }
}

/// The sum of the first `k` counts.
pub open spec fn first_counts(counts: Seq<u64>, k: int) -> int
    decreases counts.len(),
{
    if k <= 0 || counts.len() == 0 {
        0
    } else {
        counts[0] + first_counts(counts.drop_first(), k - 1)
    }
}

/// No bucket holds more latencies than there are.
pub proof fn counts_at_most_all(ls: Seq<u64>, b: int)
    ensures
        count_at(ls, b) <= ls.len(),
    decreases ls.len(),
{
    if ls.len() > 0 {
        counts_at_most_all(ls.drop_last(), b);
    }
}

/// A histogram counts every latency once: in its bucket and in the number of
/// requests. It knows their sum, the greatest and the least of them.
pub proof fn histogram_counts(ls: Seq<u64>)
    requires
        ls.len() <= u64::MAX,
    ensures
        histogram_of(ls).buckets.len() == crate::metrics::BUCKETS,
        histogram_of(ls).count == ls.len(),
        forall|b: int|
            0 <= b < crate::metrics::BUCKETS ==> #[trigger] histogram_of(ls).buckets[b] == count_at(
                ls,
                b,
            ),
        sum_of(ls) <= u64::MAX ==> histogram_of(ls).sum_ms == sum_of(ls),
        forall|i: int| 0 <= i < ls.len() ==> #[trigger] ls[i] <= histogram_of(ls).max_ms,
        forall|i: int| 0 <= i < ls.len() ==> histogram_of(ls).min_ms <= #[trigger] ls[i],
        ls.len() > 0 ==> ls.contains(histogram_of(ls).min_ms),
        ls.len() > 0 ==> ls.contains(histogram_of(ls).max_ms),
        ls.len() == 0 ==> histogram_of(ls).max_ms == 0 && histogram_of(ls).min_ms == u64::MAX,
    decreases ls.len(),
{
    if ls.len() > 0 {
        let front = ls.drop_last();
        histogram_counts(front);
        let h = histogram_of(front);
        let h2 = histogram_of(ls);
        let ms = ls.last();
        assert(h2 == crate::metrics::recorded(h, ms));
        assert forall|b: int| 0 <= b < crate::metrics::BUCKETS implies #[trigger] h2.buckets[b]
            == count_at(ls, b) by {
            assert(h.buckets[b] == count_at(front, b));
            counts_at_most_all(front, b);
        }
        assert forall|i: int| 0 <= i < ls.len() implies #[trigger] ls[i] <= h2.max_ms by {
            if i < front.len() {
                assert(front[i] == ls[i]);
            }
        }
        assert forall|i: int| 0 <= i < ls.len() implies h2.min_ms <= #[trigger] ls[i] by {
            if i < front.len() {
                assert(front[i] == ls[i]);
            }
        }
        assert(ls[ls.len() - 1] == ms);
        if front.len() > 0 {
            let i = front.index_of(h.max_ms);
            assert(front.contains(h.max_ms));
            assert(ls[i] == h.max_ms);
            let j = front.index_of(h.min_ms);
            assert(front.contains(h.min_ms));
            assert(ls[j] == h.min_ms);
        }
        assert(ls.contains(ms));
    } else {
        let e = crate::metrics::no_latencies();
        assert(histogram_of(ls) == e);
        assert forall|b: int| 0 <= b < crate::metrics::BUCKETS implies #[trigger] e.buckets[b]
            == count_at(ls, b) by {}
    }
}

/// What `reach` finds: there, and not before, the counts add up to the target.
pub proof fn reach_is_first(counts: Seq<u64>, target: int)
    ensures
        0 <= crate::metrics::reach(counts, target) <= counts.len(),
        crate::metrics::reach(counts, target) < counts.len() ==> first_counts(
            counts,
            crate::metrics::reach(counts, target) + 1,
        ) >= target,
        crate::metrics::reach(counts, target) > 0 ==> first_counts(
            counts,
            crate::metrics::reach(counts, target),
        ) < target,
    decreases counts.len(),
{
    reveal_with_fuel(first_counts, 2);
    if counts.len() > 0 && target > counts[0] {
        reach_is_first(counts.drop_first(), target - counts[0]);
    }
}

/// The sum of the first counts grows by the count that comes next.
pub proof fn first_counts_step(counts: Seq<u64>, k: int)
    requires
        0 <= k < counts.len(),
    ensures
        first_counts(counts, k + 1) == first_counts(counts, k) + counts[k],
    decreases counts.len(),
{
    if k > 0 {
        first_counts_step(counts.drop_first(), k - 1);
    } else {
        assert(first_counts(counts.drop_first(), 0) == 0);
    }
}

proof fn lemma_count_upto_step(ls: Seq<u64>, b: int)
    ensures
        count_upto(ls, b) == count_upto(ls, b - 1) + count_at(ls, b),
    decreases ls.len(),
{
    if ls.len() > 0 {
        lemma_count_upto_step(ls.drop_last(), b);
    }
}

proof fn lemma_count_upto_ends(ls: Seq<u64>)
    ensures
        count_upto(ls, -1) == 0,
        count_upto(ls, crate::metrics::MAX_LATENCY_MS as int) == ls.len(),
    decreases ls.len(),
{
    if ls.len() > 0 {
        lemma_count_upto_ends(ls.drop_last());
    }
}

/// Counts that agree with the latencies bucket by bucket agree with them up to
/// each bucket.
proof fn lemma_counts_upto(counts: Seq<u64>, ls: Seq<u64>, k: int)
    requires
        counts.len() == crate::metrics::BUCKETS,
        forall|b: int| 0 <= b < crate::metrics::BUCKETS ==> #[trigger] counts[b] == count_at(ls, b),
        0 <= k <= counts.len(),
    ensures
        first_counts(counts, k) == count_upto(ls, k - 1),
    decreases k,
{
    if k > 0 {
        lemma_counts_upto(counts, ls, k - 1);
        first_counts_step(counts, k - 1);
        lemma_count_upto_step(ls, k - 1);
        assert(counts[k - 1] == count_at(ls, k - 1));
    } else {
        lemma_count_upto_ends(ls);
    }
}

proof fn lemma_rank_bound(total: nat, p: Fraction)
    requires
        crate::metrics::is_share(p),
    ensures
        0 <= crate::number::rank(total, p) <= total,
{
    let a = total * p.num;
    let d = p.den as int;
    vstd::arithmetic::div_mod::lemma_fundamental_div_mod(a, d);
    let q = a / d;
    let r = a % d;
    assert(0 <= a <= total * d) by (nonlinear_arith)
        requires
            a == total * p.num,
            0 <= p.num <= d,
    ;
    assert(0 <= q <= total && (r > 0 ==> q < total)) by (nonlinear_arith)
        requires
            a == d * q + r,
            0 <= a <= total * d,
            0 <= r < d,
    ;
}

/// The percentile of exact counts is the latency of the request with that rank:
/// enough requests are at or below it, and too few are below it.
pub proof fn percentile_is_exact(counts: Seq<u64>, ls: Seq<u64>, p: Fraction)
    requires
        counts.len() == crate::metrics::BUCKETS,
        forall|b: int| 0 <= b < crate::metrics::BUCKETS ==> #[trigger] counts[b] == count_at(ls, b),
        0 < ls.len() <= u64::MAX,
        crate::metrics::is_share(p),
    ensures
        ({
            let v = crate::metrics::percentile_of(counts, ls.len() as u64, p);
            let rank = crate::number::rank(ls.len(), p);
            &&& 0 <= v <= crate::metrics::MAX_LATENCY_MS
            &&& count_upto(ls, v) >= rank
            &&& v > 0 ==> count_upto(ls, v - 1) < rank
        }),
{
    let rank = crate::number::rank(ls.len(), p);
    let i = crate::metrics::reach(counts, rank);
    reach_is_first(counts, rank);
    lemma_rank_bound(ls.len(), p);
    lemma_counts_upto(counts, ls, i);
    if i < counts.len() {
        lemma_counts_upto(counts, ls, i + 1);
    } else {
        lemma_count_upto_ends(ls);
    }
}

/// The percentile that a histogram reports is the latency of the request with
/// that rank among all that were counted.
pub proof fn histogram_percentile_is_exact(ls: Seq<u64>, p: Fraction)
    requires
        0 < ls.len() <= u64::MAX,
        crate::metrics::is_share(p),
    ensures
        ({
            let h = histogram_of(ls);
            let v = crate::metrics::percentile_of(h.buckets, h.count, p);
            let rank = crate::number::rank(ls.len(), p);
            &&& 0 <= v <= crate::metrics::MAX_LATENCY_MS
            &&& count_upto(ls, v) >= rank
            &&& v > 0 ==> count_upto(ls, v - 1) < rank
        }),
{
    histogram_counts(ls);
    percentile_is_exact(histogram_of(ls).buckets, ls, p);
}

/// A greater share is reached at the same bucket or a higher one.
pub proof fn percentiles_ascend(counts: Seq<u64>, count: u64, p: Fraction, q: Fraction)
    requires
        counts.len() == crate::metrics::BUCKETS,
        crate::number::rank(count as nat, p) <= crate::number::rank(count as nat, q),
    ensures
        crate::metrics::percentile_of(counts, count, p) <= crate::metrics::percentile_of(
            counts,
            count,
            q,
        ),
{
    let a = crate::number::rank(count as nat, p);
    let b = crate::number::rank(count as nat, q);
    lemma_reach_monotone(counts, a, b);
    reach_is_first(counts, a);
    reach_is_first(counts, b);
}

proof fn lemma_reach_monotone(counts: Seq<u64>, a: int, b: int)
    requires
        a <= b,
    ensures
        crate::metrics::reach(counts, a) <= crate::metrics::reach(counts, b),
    decreases counts.len(),
{
    if counts.len() > 0 && a > counts[0] {
        lemma_reach_monotone(counts.drop_first(), a - counts[0], b - counts[0]);
    } else {
        reach_is_first(counts, b);
    }
}

/// The reported percentiles ascend: p50 is at most p95, and p95 at most p99.
pub proof fn reported_percentiles_ascend(h: HistogramModel)
    requires
        h.buckets.len() == crate::metrics::BUCKETS,
    ensures
        crate::metrics::latency_of(h).p50_ms.num <= crate::metrics::latency_of(h).p95_ms.num,
        crate::metrics::latency_of(h).p95_ms.num <= crate::metrics::latency_of(h).p99_ms.num,
{
    let n = h.count as nat;
    assert(crate::number::rank(n, crate::metrics::percent(50)) <= crate::number::rank(
        n,
        crate::metrics::percent(95),
    ));
    assert(crate::number::rank(n, crate::metrics::percent(95)) <= crate::number::rank(
        n,
        crate::metrics::percent(99),
    ));
    percentiles_ascend(h.buckets, h.count, crate::metrics::percent(50), crate::metrics::percent(95));
    percentiles_ascend(h.buckets, h.count, crate::metrics::percent(95), crate::metrics::percent(99));
    reach_is_first(h.buckets, crate::number::rank(n, crate::metrics::percent(50)));
    reach_is_first(h.buckets, crate::number::rank(n, crate::metrics::percent(95)));
    reach_is_first(h.buckets, crate::number::rank(n, crate::metrics::percent(99)));
}

/// The requests of two lists put together fall into each bucket as they do
/// apart.
pub proof fn counts_add_up(a: Seq<u64>, c: Seq<u64>, b: int)
    ensures
        count_at(a + c, b) == count_at(a, b) + count_at(c, b),
    decreases c.len(),
{
    if c.len() == 0 {
        assert(a + c =~= a);
    } else {
        assert((a + c).drop_last() =~= a + c.drop_last());
        counts_add_up(a, c.drop_last(), b);
    }
}

proof fn lemma_sum_bounds(ls: Seq<u64>, low: u64, high: u64)
    requires
        forall|i: int| 0 <= i < ls.len() ==> low <= #[trigger] ls[i] <= high,
    ensures
        low * ls.len() <= sum_of(ls) <= high * ls.len(),
    decreases ls.len(),
{
    if ls.len() > 0 {
        let front = ls.drop_last();
        assert forall|i: int| 0 <= i < front.len() implies low <= #[trigger] front[i] <= high by {
            assert(front[i] == ls[i]);
        }
        lemma_sum_bounds(front, low, high);
        assert(ls[ls.len() - 1] == ls.last());
        let n = front.len() as int;
        assert(low * (n + 1) == low * n + low && high * (n + 1) == high * n + high)
            by (nonlinear_arith);
    } else {
        assert(low * 0 == 0 && high * 0 == 0);
    }
}

/// A histogram is balanced: its counts add up to the number of requests, and the
/// sum of the latencies lies between the least and the greatest of them taken as
/// often as there are requests.
pub proof fn histogram_is_balanced(ls: Seq<u64>)
    requires
        ls.len() <= u64::MAX,
        sum_of(ls) <= u64::MAX,
    ensures
        ({
            let h = histogram_of(ls);
            &&& h.buckets.len() == crate::metrics::BUCKETS
            &&& first_counts(h.buckets, h.buckets.len() as int) == h.count
            &&& h.count > 0 ==> h.min_ms <= h.max_ms
            &&& h.count > 0 ==> h.min_ms * h.count <= h.sum_ms <= h.max_ms * h.count
        }),
{
    let h = histogram_of(ls);
    histogram_counts(ls);
    lemma_counts_upto(h.buckets, ls, h.buckets.len() as int);
    lemma_count_upto_ends(ls);
    if ls.len() > 0 {
        assert(h.min_ms <= ls[0] <= h.max_ms);
        lemma_sum_bounds(ls, h.min_ms, h.max_ms);
    }
}

proof fn lemma_wrapped_twice(a: u64, x: u64, y: u64)
    ensures
        crate::metrics::wrapped(crate::metrics::wrapped(a, x), y) == crate::metrics::wrapped(
            crate::metrics::wrapped(a, y),
            x,
        ),
{
}

/// Two latencies may be counted in either order.
pub proof fn recording_commutes(h: HistogramModel, x: u64, y: u64)
    requires
        h.buckets.len() == crate::metrics::BUCKETS,
    ensures
        crate::metrics::recorded(crate::metrics::recorded(h, x), y) == crate::metrics::recorded(
            crate::metrics::recorded(h, y),
            x,
        ),
{
    let a = crate::metrics::recorded(crate::metrics::recorded(h, x), y);
    let b = crate::metrics::recorded(crate::metrics::recorded(h, y), x);
    lemma_wrapped_twice(h.sum_ms, x, y);
    assert(a.buckets =~= b.buckets);
}

// ── Metrics of a run ──────────────────────────────────────────────────────────

/// A finished request: its task, its latency and whether it failed.
pub struct Outcome {
    pub task: Seq<char>,
    pub latency_ms: u64,
    pub failed: bool,
}

/// The counters after the outcomes, one after the other.
pub open spec fn all_counted(m: MetricsModel, os: Seq<Outcome>) -> MetricsModel
    decreases os.len(),
{
    if os.len() == 0 {
        m
    } else {
        crate::metrics::counted_task(
            all_counted(m, os.drop_last()),
            os.last().task,
            os.last().latency_ms,
            os.last().failed,
        )
    }
}

/// The latencies of the outcomes.
pub open spec fn latencies(os: Seq<Outcome>) -> Seq<u64> {
    os.map_values(|o: Outcome| o.latency_ms)
}

/// How many outcomes are failures.
pub open spec fn failures(os: Seq<Outcome>) -> nat
    decreases os.len(),
{
    if os.len() == 0 {
        0
    } else {
        failures(os.drop_last()) + (if os.last().failed {
            1nat
        } else {
            0nat
        })
    }
}

/// The outcomes of one task.
pub open spec fn of_task(os: Seq<Outcome>, task: Seq<char>) -> Seq<Outcome>
    decreases os.len(),
{
    if os.len() == 0 {
        os
    } else if os.last().task == task {
        of_task(os.drop_last(), task).push(os.last())
    } else {
        of_task(os.drop_last(), task)
    }
}

proof fn lemma_failures_bound(os: Seq<Outcome>)
    ensures
        failures(os) <= os.len(),
    decreases os.len(),
{
    if os.len() > 0 {
        lemma_failures_bound(os.drop_last());
    }
}

/// A task has no more outcomes than there are.
pub proof fn of_task_bound(os: Seq<Outcome>, task: Seq<char>)
    ensures
        of_task(os, task).len() <= os.len(),
    decreases os.len(),
{
    if os.len() > 0 {
        of_task_bound(os.drop_last(), task);
    }
}

/// The overall counters are those of the outcomes.
pub open spec fn counts_outcomes(m: MetricsModel, os: Seq<Outcome>) -> bool {
    &&& m.requests_total == os.len()
    &&& m.errors_total == failures(os)
    &&& m.window_requests == os.len()
    &&& m.window_errors == failures(os)
    &&& m.histogram == histogram_of(latencies(os))
}

/// The counters of a task are those of its outcomes.
pub open spec fn counts_task(e: TaskEntryModel, mine: Seq<Outcome>) -> bool {
    &&& e.requests == mine.len()
    &&& e.errors == failures(mine)
    &&& e.histogram == histogram_of(latencies(mine))
}

proof fn lemma_counted_fields(m: MetricsModel, o: Outcome)
    requires
        m.requests_total < u64::MAX,
        m.errors_total < u64::MAX,
        m.window_requests < u64::MAX,
        m.window_errors < u64::MAX,
    ensures
        ({
            let a = crate::metrics::counted_task(m, o.task, o.latency_ms, o.failed);
            let f: int = if o.failed {
                1
            } else {
                0
            };
            &&& a.requests_total == m.requests_total + 1
            &&& a.errors_total == m.errors_total + f
            &&& a.window_requests == m.window_requests + 1
            &&& a.window_errors == m.window_errors + f
        }),
{
}

/// The totals of a run are the numbers of requests and of failures, and its
/// histogram is that of the latencies.
pub proof fn metrics_count_every_outcome(os: Seq<Outcome>)
    requires
        os.len() <= u64::MAX,
    ensures
        counts_outcomes(all_counted(crate::metrics::no_metrics(), os), os),
    decreases os.len(),
{
    if os.len() == 0 {
        assert(latencies(os) =~= Seq::<u64>::empty());
    } else {
        let front = os.drop_last();
        let o = os.last();
        metrics_count_every_outcome(front);
        lemma_failures_bound(front);
        let b = all_counted(crate::metrics::no_metrics(), front);
        let a = all_counted(crate::metrics::no_metrics(), os);
        lemma_counted_fields(b, o);
        assert(a.histogram == crate::metrics::recorded(b.histogram, o.latency_ms));
        assert(front.push(o) == os);
        lemma_latencies_push(front, o);
    }
}

proof fn lemma_task_fields(e: TaskEntryModel, o: Outcome)
    requires
        e.requests < u64::MAX,
        e.errors < u64::MAX,
    ensures
        ({
            let a = crate::metrics::task_recorded(e, o.latency_ms, o.failed);
            &&& a.requests == e.requests + 1
            &&& a.errors == e.errors + (if o.failed {
                1int
            } else {
                0
            })
            &&& a.histogram == crate::metrics::recorded(e.histogram, o.latency_ms)
        }),
{
}

proof fn lemma_entry_counted(m: MetricsModel, o: Outcome, task: Seq<char>)
    ensures
        ({
            let a = crate::metrics::counted_task(m, o.task, o.latency_ms, o.failed);
            let e = crate::metrics::entry_of(m, task);
            &&& o.task != task ==> crate::metrics::entry_of(a, task) == e
            &&& o.task != task ==> (a.tasks.contains_key(task) <==> m.tasks.contains_key(task))
            &&& o.task == task ==> a.tasks.contains_key(task)
            &&& o.task == task ==> crate::metrics::entry_of(a, task)
                == crate::metrics::task_recorded(e, o.latency_ms, o.failed)
        }),
{
}

/// The counters of a task count the outcomes of that task and no others: their
/// number, their failures and their latencies.
pub proof fn tasks_count_their_outcomes(os: Seq<Outcome>, task: Seq<char>)
    requires
        os.len() <= u64::MAX,
    ensures
        all_counted(crate::metrics::no_metrics(), os).tasks.contains_key(task) <==> of_task(
            os,
            task,
        ).len() > 0,
        counts_task(
            crate::metrics::entry_of(all_counted(crate::metrics::no_metrics(), os), task),
            of_task(os, task),
        ),
    decreases os.len(),
{
    if os.len() == 0 {
        assert(latencies(of_task(os, task)) =~= Seq::<u64>::empty());
    } else {
        let front = os.drop_last();
        let o = os.last();
        tasks_count_their_outcomes(front, task);
        let b = all_counted(crate::metrics::no_metrics(), front);
        let mine = of_task(front, task);
        lemma_entry_counted(b, o, task);
        of_task_bound(front, task);
        lemma_failures_bound(mine);
        if o.task == task {
            lemma_task_fields(crate::metrics::entry_of(b, task), o);
            lemma_latencies_push(mine, o);
            lemma_failures_push(mine, o);
        }
    }
}

proof fn lemma_failures_push(os: Seq<Outcome>, o: Outcome)
    ensures
        failures(os.push(o)) == failures(os) + (if o.failed {
            1nat
        } else {
            0nat
        }),
{
    assert(os.push(o).drop_last() =~= os);
}

proof fn lemma_latencies_push(os: Seq<Outcome>, o: Outcome)
    ensures
        histogram_of(latencies(os.push(o))) == crate::metrics::recorded(
            histogram_of(latencies(os)),
            o.latency_ms,
        ),
{
    assert(latencies(os.push(o)) =~= latencies(os).push(o.latency_ms));
    assert(latencies(os).push(o.latency_ms).drop_last() =~= latencies(os));
}

// ── Reports by task ───────────────────────────────────────────────────────────

/// What happens to the counters of a run: an outcome is counted, or the window is
/// drained.
pub enum Event {
    Counted(Outcome),
    Drained,
}

/// The counters after the events, one after the other.
pub open spec fn after_events(m: MetricsModel, es: Seq<Event>) -> MetricsModel
    decreases es.len(),
{
    if es.len() == 0 {
        m
    } else {
        let before = after_events(m, es.drop_last());
        match es.last() {
            Event::Counted(o) => crate::metrics::counted_task(
                before,
                o.task,
                o.latency_ms,
                o.failed,
            ),
            Event::Drained => MetricsModel { window_requests: 0, window_errors: 0, ..before },
        }
    }
}

/// The outcomes among the events.
pub open spec fn outcomes_of(es: Seq<Event>) -> Seq<Outcome>
    decreases es.len(),
{
    if es.len() == 0 {
        seq![]
    } else {
        match es.last() {
            Event::Counted(o) => outcomes_of(es.drop_last()).push(o),
            Event::Drained => outcomes_of(es.drop_last()),
        }
    }
}

/// Draining the window touches nothing but the window: totals, tasks and
/// histogram are as if it had never been drained.
pub proof fn drains_touch_the_window_alone(es: Seq<Event>)
    ensures
        ({
            let m = after_events(crate::metrics::no_metrics(), es);
            let n = all_counted(crate::metrics::no_metrics(), outcomes_of(es));
            &&& m.requests_total == n.requests_total
            &&& m.errors_total == n.errors_total
            &&& m.histogram == n.histogram
            &&& m.tasks == n.tasks
        }),
    decreases es.len(),
{
    if es.len() > 0 {
        drains_touch_the_window_alone(es.drop_last());
        if let Event::Counted(o) = es.last() {
            let front = outcomes_of(es.drop_last());
            assert(front.push(o).drop_last() =~= front);
            let m = after_events(crate::metrics::no_metrics(), es.drop_last());
            let n = all_counted(crate::metrics::no_metrics(), front);
            assert(crate::metrics::entry_of(m, o.task) == crate::metrics::entry_of(n, o.task));
        }
    }
}

/// How many outcomes each of the tasks has.
spec fn sizes(os: Seq<Outcome>, names: Seq<Seq<char>>) -> Seq<nat> {
    names.map_values(|n: Seq<char>| of_task(os, n).len())
}

/// How many failures each of the tasks has.
spec fn failed_sizes(os: Seq<Outcome>, names: Seq<Seq<char>>) -> Seq<nat> {
    names.map_values(|n: Seq<char>| failures(of_task(os, n)))
}

proof fn lemma_sizes_add_up(os: Seq<Outcome>, names: Seq<Seq<char>>)
    requires
        names.no_duplicates(),
        forall|i: int| 0 <= i < os.len() ==> names.contains((#[trigger] os[i]).task),
    ensures
        crate::number::total(sizes(os, names)) == os.len(),
        crate::number::total(failed_sizes(os, names)) == failures(os),
    decreases os.len(),
{
    if os.len() == 0 {
        lemma_nothing_adds_up(os, names);
    } else {
        let front = os.drop_last();
        let o = os.last();
        assert forall|i: int| 0 <= i < front.len() implies names.contains(
            (#[trigger] front[i]).task,
        ) by {
            assert(front[i] == os[i]);
        }
        lemma_sizes_add_up(front, names);
        assert(os[os.len() - 1] == o);
        let k = names.index_of(o.task);
        assert(names.contains(o.task));
        let a = sizes(front, names);
        let b = failed_sizes(front, names);
        let f: nat = if o.failed {
            1
        } else {
            0
        };
        lemma_failures_push(of_task(front, o.task), o);
        assert forall|j: int| 0 <= j < names.len() && j != k implies #[trigger] names[j]
            != o.task by {}
        assert(sizes(os, names) =~= a.update(k, a[k] + 1));
        assert(failed_sizes(os, names) =~= b.update(k, b[k] + f));
        crate::number::total_update(a, k, a[k] + 1);
        crate::number::total_update(b, k, b[k] + f);
    }
}

proof fn lemma_nothing_adds_up(os: Seq<Outcome>, names: Seq<Seq<char>>)
    requires
        os.len() == 0,
    ensures
        crate::number::total(sizes(os, names)) == 0,
        crate::number::total(failed_sizes(os, names)) == 0,
    decreases names.len(),
{
    if names.len() > 0 {
        let front = names.drop_last();
        lemma_nothing_adds_up(os, front);
        assert(sizes(os, names).drop_last() =~= sizes(os, front));
        assert(failed_sizes(os, names).drop_last() =~= failed_sizes(os, front));
        assert(sizes(os, names).last() == 0);
        assert(failed_sizes(os, names).last() == 0);
    }
}

proof fn lemma_task_is_recorded(os: Seq<Outcome>, i: int)
    requires
        0 <= i < os.len(),
    ensures
        of_task(os, os[i].task).len() > 0,
    decreases os.len(),
{
    if i < os.len() - 1 {
        lemma_task_is_recorded(os.drop_last(), i);
    }
}

/// An outcome of `task` was counted.
pub open spec fn was_counted(os: Seq<Outcome>, task: Seq<char>) -> bool {
    exists|i: int| 0 <= i < os.len() && (#[trigger] os[i]).task == task
}

/// There is a report under `name`.
pub open spec fn has_report(snaps: Seq<TaskSnapshot>, name: Seq<char>) -> bool {
    exists|j: int| 0 <= j < snaps.len() && (#[trigger] snaps[j]).name@ == name
}

proof fn lemma_recorded_task(os: Seq<Outcome>, task: Seq<char>)
    requires
        of_task(os, task).len() > 0,
    ensures
        was_counted(os, task),
    decreases os.len(),
{
    if os.last().task == task {
        assert(os[os.len() - 1].task == task);
    } else {
        lemma_recorded_task(os.drop_last(), task);
        let i = choose|i: int|
            0 <= i < os.drop_last().len() && (#[trigger] os.drop_last()[i]).task == task;
        assert(os[i].task == task);
    }
}

/// The requests that the reports state.
pub open spec fn reported_requests(snaps: Seq<TaskSnapshot>) -> Seq<nat> {
    snaps.map_values(|s: TaskSnapshot| s.requests as nat)
}

/// The errors that the reports state.
pub open spec fn reported_errors(snaps: Seq<TaskSnapshot>) -> Seq<nat> {
    snaps.map_values(|s: TaskSnapshot| s.errors as nat)
}

/// The reports by task after any events: there is one for each task of which an
/// outcome was counted, and none else, in the order of their names; each states
/// the number of the task's outcomes and of its failures, which are no more; and
/// all together add up to the totals of the run.
pub proof fn task_reports_add_up(es: Seq<Event>, snaps: Seq<TaskSnapshot>)
    requires
        outcomes_of(es).len() <= u64::MAX,
        crate::metrics::task_report_of(
            after_events(crate::metrics::no_metrics(), es).tasks,
            snaps,
        ),
    ensures
        ({
            let os = outcomes_of(es);
            let m = after_events(crate::metrics::no_metrics(), es);
            &&& forall|i: int, j: int|
                0 <= i < j < snaps.len() ==> crate::text::text_less(
                    (#[trigger] snaps[i]).name@,
                    (#[trigger] snaps[j]).name@,
                )
            &&& forall|name: Seq<char>| #[trigger]
                has_report(snaps, name) <==> was_counted(os, name)
            &&& forall|j: int|
                0 <= j < snaps.len() ==> {
                    &&& (#[trigger] snaps[j]).requests == of_task(os, snaps[j].name@).len()
                    &&& snaps[j].errors == failures(of_task(os, snaps[j].name@))
                    &&& snaps[j].errors <= snaps[j].requests
                }
            &&& m.requests_total == os.len()
            &&& m.errors_total == failures(os)
            &&& crate::number::total(reported_requests(snaps)) == m.requests_total
            &&& crate::number::total(reported_errors(snaps)) == m.errors_total
        }),
{
    let os = outcomes_of(es);
    let m = after_events(crate::metrics::no_metrics(), es);
    let n = all_counted(crate::metrics::no_metrics(), os);
    let names = snaps.map_values(|s: TaskSnapshot| s.name@);
    drains_touch_the_window_alone(es);
    metrics_count_every_outcome(os);
    assert forall|j: int| 0 <= j < snaps.len() implies {
        &&& (#[trigger] snaps[j]).requests == of_task(os, snaps[j].name@).len()
        &&& snaps[j].errors == failures(of_task(os, snaps[j].name@))
        &&& snaps[j].errors <= snaps[j].requests
        &&& of_task(os, snaps[j].name@).len() > 0
    } by {
        tasks_count_their_outcomes(os, snaps[j].name@);
        lemma_failures_bound(of_task(os, snaps[j].name@));
        assert(m.tasks.contains_key(snaps[j].name@));
    }
    assert forall|name: Seq<char>| #[trigger] has_report(snaps, name) <==> was_counted(
        os,
        name,
    ) by {
        if has_report(snaps, name) {
            lemma_recorded_task(os, name);
        }
        if was_counted(os, name) {
            let i = choose|i: int| 0 <= i < os.len() && (#[trigger] os[i]).task == name;
            lemma_task_is_recorded(os, i);
            tasks_count_their_outcomes(os, name);
            assert(m.tasks.contains_key(name));
        }
    }
    assert(crate::map::ascending(names)) by {
        assert forall|i: int, j: int| 0 <= i < j < names.len() implies crate::text::text_less(
            #[trigger] names[i],
            #[trigger] names[j],
        ) by {
            assert(names[i] == snaps[i].name@ && names[j] == snaps[j].name@);
        }
    }
    crate::map::ascending_distinct(names);
    assert forall|i: int| 0 <= i < os.len() implies names.contains((#[trigger] os[i]).task) by {
        lemma_task_is_recorded(os, i);
        tasks_count_their_outcomes(os, os[i].task);
        assert(m.tasks.contains_key(os[i].task));
        let j = choose|j: int| 0 <= j < snaps.len() && (#[trigger] snaps[j]).name@ == os[i].task;
        assert(names[j] == os[i].task);
    }
    lemma_sizes_add_up(os, names);
    assert(reported_requests(snaps) =~= sizes(os, names));
    assert(reported_errors(snaps) =~= failed_sizes(os, names));
}

} // verus!

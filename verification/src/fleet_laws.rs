//! What the metrics of a fleet owe to the reports of its agents, report by
//! report.
use crate::metrics::TaskSnapshot;
use crate::number::Fraction;
use crate::wire::AgentMetricsMsg;
use crate::wire::AggregatedSnapshot;
use crate::wire::TaskWireSnapshot;
use vstd::prelude::*;

verus! {

// ── Counts, rates and extremes ────────────────────────────────────────────────

/// `n` billionths.
pub open spec fn is_billionths(f: Fraction, n: int) -> bool {
    f.num == n && f.den == 1_000_000_000
}

/// No report holds a histogram.
pub open spec fn without_histograms(s: Seq<AgentMetricsMsg>) -> bool {
    forall|i: int| 0 <= i < s.len() ==> (#[trigger] s[i]).histogram_buckets@.len() == 0
}

/// The greater of two numbers.
pub open spec fn greater(a: int, b: int) -> int {
    if a > b {
        a
    } else {
        b
    }
}

/// The lesser of two numbers.
pub open spec fn lesser(a: int, b: int) -> int {
    if a < b {
        a
    } else {
        b
    }
}

/// The phase of two parts of a fleet taken together: that of the part that still
/// runs, and where both do, the later one on the way from ramp-up over the steady
/// phase to ramp-down; of two that are equally far, the second.
pub open spec fn joint_phase(a: Seq<char>, b: Seq<char>) -> Seq<char> {
    if b == "done"@ {
        a
    } else if a == "done"@ {
        b
    } else if b == "ramp_down"@ {
        b
    } else if a == "ramp_down"@ {
        a
    } else if b == "steady"@ {
        b
    } else if a == "steady"@ {
        a
    } else {
        b
    }
}

proof fn lemma_rate_bounds(s: Seq<AgentMetricsMsg>)
    ensures
        crate::number::total(crate::wire::current_of(s)) <= s.len() * 0xffff_ffff_ffff_ffff,
        crate::number::total(crate::wire::target_of(s)) <= s.len() * 0xffff_ffff_ffff_ffff,
        crate::number::total(crate::wire::p50_of(s)) <= s.len() * 0xffff_ffff_ffff_ffff,
        crate::number::total(crate::wire::p95_of(s)) <= s.len() * 0xffff_ffff_ffff_ffff,
        crate::number::total(crate::wire::p99_of(s)) <= s.len() * 0xffff_ffff_ffff_ffff,
        crate::number::total(crate::wire::weights_of(s)) <= 0xffff_ffff_ffff_ffff
            * crate::number::total(crate::wire::requests_of(s)),
    decreases s.len(),
{
    if s.len() == 0 {
        assert(crate::wire::current_of(s) =~= Seq::<nat>::empty());
        assert(crate::wire::target_of(s) =~= Seq::<nat>::empty());
        assert(crate::wire::p50_of(s) =~= Seq::<nat>::empty());
        assert(crate::wire::p95_of(s) =~= Seq::<nat>::empty());
        assert(crate::wire::p99_of(s) =~= Seq::<nat>::empty());
        assert(crate::wire::weights_of(s) =~= Seq::<nat>::empty());
        assert(crate::wire::requests_of(s) =~= Seq::<nat>::empty());
    } else {
        let front = s.drop_last();
        let m = s.last();
        lemma_rate_bounds(front);
        crate::wire::lemma_columns_push(front, m);
        assert(front.push(m) =~= s);
        assert(m.latency.mean_ps * m.requests_total <= 0xffff_ffff_ffff_ffff * m.requests_total)
            by (nonlinear_arith)
            requires
                m.latency.mean_ps <= 0xffff_ffff_ffff_ffff,
                m.requests_total >= 0,
        ;
    }
}

proof fn lemma_no_columns()
    ensures
        ({
            let e = Seq::<AgentMetricsMsg>::empty();
            &&& crate::number::total(crate::wire::requests_of(e)) == 0
            &&& crate::number::total(crate::wire::errors_of(e)) == 0
            &&& crate::number::total(crate::wire::workers_of(e)) == 0
            &&& crate::number::total(crate::wire::current_of(e)) == 0
            &&& crate::number::total(crate::wire::target_of(e)) == 0
            &&& crate::number::total(crate::wire::weights_of(e)) == 0
            &&& crate::number::total(crate::wire::p50_of(e)) == 0
            &&& crate::number::total(crate::wire::p95_of(e)) == 0
            &&& crate::number::total(crate::wire::p99_of(e)) == 0
            &&& crate::wire::greatest(crate::wire::elapsed_of(e)) == 0
            &&& crate::wire::greatest(crate::wire::max_of(e)) == 0
        }),
{
    let e = Seq::<AgentMetricsMsg>::empty();
    assert(crate::wire::requests_of(e) =~= Seq::<nat>::empty());
    assert(crate::wire::errors_of(e) =~= Seq::<nat>::empty());
    assert(crate::wire::workers_of(e) =~= Seq::<nat>::empty());
    assert(crate::wire::current_of(e) =~= Seq::<nat>::empty());
    assert(crate::wire::target_of(e) =~= Seq::<nat>::empty());
    assert(crate::wire::weights_of(e) =~= Seq::<nat>::empty());
    assert(crate::wire::p50_of(e) =~= Seq::<nat>::empty());
    assert(crate::wire::p95_of(e) =~= Seq::<nat>::empty());
    assert(crate::wire::p99_of(e) =~= Seq::<nat>::empty());
    assert(crate::wire::elapsed_of(e) =~= Seq::<nat>::empty());
    assert(crate::wire::max_of(e) =~= Seq::<nat>::empty());
}

proof fn lemma_phase_push(s: Seq<AgentMetricsMsg>, m: AgentMetricsMsg)
    ensures
        s.len() == 0 ==> crate::wire::overall_phase(crate::wire::phases_of(s.push(m))) == m.phase@,
        s.len() > 0 ==> crate::wire::overall_phase(crate::wire::phases_of(s.push(m)))
            == joint_phase(crate::wire::overall_phase(crate::wire::phases_of(s)), m.phase@),
{
    let phases = crate::wire::phases_of(s);
    let more = crate::wire::phases_of(s.push(m));
    assert(more.drop_last() =~= phases);
    assert(more.last() == m.phase@);
    crate::wire::lemma_leading(phases);
    reveal_strlit("steady");
    reveal_strlit("ramp_down");
    reveal_strlit("done");
    assert("steady"@.len() == 6 && "ramp_down"@.len() == 9 && "done"@.len() == 4);
}

/// A single agent is the whole fleet: its counts, its rates, its phase and its
/// latencies are those of the fleet.
pub proof fn single_agent_is_the_fleet(a: AggregatedSnapshot, m: AgentMetricsMsg)
    requires
        crate::wire::is_aggregate(a, seq![m]),
    ensures
        a.elapsed_ns == m.elapsed_ns,
        is_billionths(a.current_rps, m.current_nano_rps as int),
        is_billionths(a.target_rps, m.target_nano_rps as int),
        a.requests_total == m.requests_total,
        a.errors_total == m.errors_total,
        a.active_workers == m.active_workers,
        a.phase@ == m.phase@,
        is_billionths(a.latency.max_ms, m.latency.max_ps as int),
        is_billionths(a.latency.min_ms, m.latency.min_ps as int),
        m.requests_total > 0 ==> a.latency.mean_ms.den == m.requests_total * 1_000_000_000,
        m.requests_total > 0 ==> a.latency.mean_ms.num == m.latency.mean_ps * m.requests_total,
        m.requests_total == 0 ==> is_billionths(a.latency.mean_ms, 0),
        m.histogram_buckets@.len() == 0 ==> {
            &&& is_billionths(a.latency.p50_ms, m.latency.p50_ps as int)
            &&& is_billionths(a.latency.p95_ms, m.latency.p95_ps as int)
            &&& is_billionths(a.latency.p99_ms, m.latency.p99_ps as int)
        },
{
    let e = Seq::<AgentMetricsMsg>::empty();
    assert(e.push(m) =~= seq![m]);
    lemma_no_columns();
    lemma_rate_bounds(seq![m]);
    crate::wire::lemma_columns_push(e, m);
    lemma_phase_push(e, m);
    assert(m.latency.mean_ps * m.requests_total >= 0) by (nonlinear_arith);
    if m.requests_total == 0 {
        assert(m.latency.mean_ps * 0 == 0);
    }
}

/// An agent adds its report to those of the others: its requests, errors,
/// workers and rates come on top, the longest time and the extremes of the
/// latencies count, the mean is weighted by requests, and the fleet runs as long
/// as any agent does.
pub proof fn agents_add_their_reports(
    a: AggregatedSnapshot,
    b: AggregatedSnapshot,
    s: Seq<AgentMetricsMsg>,
    m: AgentMetricsMsg,
)
    requires
        0 < s.len() < usize::MAX,
        crate::wire::is_aggregate(a, s),
        crate::wire::is_aggregate(b, s.push(m)),
    ensures
        b.elapsed_ns == greater(a.elapsed_ns as int, m.elapsed_ns as int),
        is_billionths(b.current_rps, a.current_rps.num + m.current_nano_rps),
        is_billionths(b.target_rps, a.target_rps.num + m.target_nano_rps),
        b.requests_total == a.requests_total + m.requests_total,
        b.errors_total == a.errors_total + m.errors_total,
        b.active_workers == a.active_workers + m.active_workers,
        b.phase@ == joint_phase(a.phase@, m.phase@),
        is_billionths(
            b.latency.max_ms,
            greater(a.latency.max_ms.num as int, m.latency.max_ps as int),
        ),
        is_billionths(
            b.latency.min_ms,
            lesser(a.latency.min_ms.num as int, m.latency.min_ps as int),
        ),
        b.latency.mean_ms.num == a.latency.mean_ms.num + m.latency.mean_ps * m.requests_total,
        b.requests_total > 0 ==> b.latency.mean_ms.den == b.requests_total * 1_000_000_000,
        without_histograms(s.push(m)) ==> {
            &&& b.latency.p50_ms.num == a.latency.p50_ms.num + m.latency.p50_ps
            &&& b.latency.p95_ms.num == a.latency.p95_ms.num + m.latency.p95_ps
            &&& b.latency.p99_ms.num == a.latency.p99_ms.num + m.latency.p99_ps
            &&& b.latency.p50_ms.den == (s.len() + 1) * 1_000_000_000
            &&& b.latency.p95_ms.den == (s.len() + 1) * 1_000_000_000
            &&& b.latency.p99_ms.den == (s.len() + 1) * 1_000_000_000
        },
{
    let more = s.push(m);
    lemma_rate_bounds(s);
    lemma_rate_bounds(more);
    crate::wire::lemma_columns_push(s, m);
    lemma_phase_push(s, m);
    assert(m.latency.mean_ps * m.requests_total >= 0) by (nonlinear_arith);
    if without_histograms(more) {
        assert forall|i: int| 0 <= i < s.len() implies (
        #[trigger] s[i]).histogram_buckets@.len() == 0 by {
            assert(more[i] == s[i]);
        }
        assert(more[s.len() as int] == m);
    }
    assert(crate::wire::greatest(crate::wire::max_of(s)) <= u64::MAX) by {
        crate::aggregate_laws::lemma_greatest(crate::wire::max_of(s));
    }
    assert(crate::wire::least(crate::wire::min_of(s)) <= u64::MAX) by {
        crate::aggregate_laws::lemma_least(crate::wire::min_of(s));
    }
}

// ── Percentiles ───────────────────────────────────────────────────────────────

/// How many requests the pairs count for latencies of at most `ms`.
pub open spec fn counted_at_most(entries: Seq<[u64; 2]>, ms: int) -> nat
    decreases entries.len(),
{
    if entries.len() == 0 {
        0
    } else {
        counted_at_most(entries.drop_last(), ms) + (if entries.last()@[0] <= ms {
            entries.last()@[1] as nat
        } else {
            0
        })
    }
}

/// How many requests all agents count for latencies of at most `ms`.
pub open spec fn fleet_at_most(s: Seq<AgentMetricsMsg>, ms: int) -> nat
    decreases s.len(),
{
    if s.len() == 0 {
        0
    } else {
        fleet_at_most(s.drop_last(), ms) + counted_at_most(s.last().histogram_buckets@, ms)
    }
}

/// What counts for at most `b` counts for at most `b - 1` or for bucket `b`.
pub proof fn counted_step(entries: Seq<[u64; 2]>, b: int)
    requires
        0 <= b < 10_000,
    ensures
        counted_at_most(entries, b) == counted_at_most(entries, b - 1) + crate::wire::count_in(
            entries,
            b,
        ),
    decreases entries.len(),
{
    if entries.len() > 0 {
        counted_step(entries.drop_last(), b);
    }
}

/// Nothing counts for a latency below zero.
pub proof fn counted_nothing(entries: Seq<[u64; 2]>)
    ensures
        counted_at_most(entries, -1) == 0,
    decreases entries.len(),
{
    if entries.len() > 0 {
        counted_nothing(entries.drop_last());
    }
}

proof fn lemma_fleet_step(s: Seq<AgentMetricsMsg>, b: int)
    requires
        0 <= b < 10_000,
    ensures
        fleet_at_most(s, b) == fleet_at_most(s, b - 1) + crate::wire::agents_count(s, b),
    decreases s.len(),
{
    if s.len() > 0 {
        let front = s.drop_last();
        let m = s.last();
        lemma_fleet_step(front, b);
        counted_step(m.histogram_buckets@, b);
        crate::wire::lemma_agents_count_push(front, m, b);
        assert(front.push(m) =~= s);
    } else {
        assert(s.map_values(
            |m: AgentMetricsMsg| crate::wire::count_in(m.histogram_buckets@, b),
        ) =~= Seq::<nat>::empty());
    }
}

proof fn lemma_fleet_nothing(s: Seq<AgentMetricsMsg>)
    ensures
        fleet_at_most(s, -1) == 0,
    decreases s.len(),
{
    if s.len() > 0 {
        lemma_fleet_nothing(s.drop_last());
        counted_nothing(s.last().histogram_buckets@);
    }
}

/// Where agents sent histograms, the percentiles of the fleet have their ranks
/// among all requests of all agents.
pub proof fn fleet_percentiles_have_their_rank(a: AggregatedSnapshot, s: Seq<AgentMetricsMsg>)
    requires
        crate::wire::agents_fit(s),
        crate::wire::is_aggregate(a, s),
        !without_histograms(s),
        a.requests_total > 0,
    ensures
        ({
            let upto = |ms: int| fleet_at_most(s, ms);
            let n = a.requests_total as nat;
            &&& crate::report_laws::has_rank(a.latency.p50_ms, upto, n, 50)
            &&& crate::report_laws::has_rank(a.latency.p95_ms, upto, n, 95)
            &&& crate::report_laws::has_rank(a.latency.p99_ms, upto, n, 99)
        }),
{
    let upto = |ms: int| fleet_at_most(s, ms);
    let counts = crate::wire::agents_histogram(s);
    let n = a.requests_total;
    lemma_fleet_nothing(s);
    assert forall|b: int| 0 <= b < 10_000 implies #[trigger] counts[b] == upto(b) - upto(b - 1) by {
        lemma_fleet_step(s, b);
        assert(crate::wire::agents_count(s, b) <= u64::MAX);
    }
    crate::report_laws::percentiles_have_their_rank(counts, upto, n, 50);
    crate::report_laws::percentiles_have_their_rank(counts, upto, n, 95);
    crate::report_laws::percentiles_have_their_rank(counts, upto, n, 99);
}

// ── Tasks ─────────────────────────────────────────────────────────────────────

/// There is a report that says the same of the same task.
pub open spec fn says_the_same(x: Seq<TaskSnapshot>, t: TaskSnapshot) -> bool {
    exists|i: int|
        0 <= i < x.len() && (#[trigger] x[i]).name@ == t.name@ && x[i].requests == t.requests
            && x[i].errors == t.errors && x[i].latency == t.latency
}

/// The merged report `r` is that of the report `t` alone.
pub open spec fn is_alone(r: TaskSnapshot, t: TaskWireSnapshot) -> bool {
    &&& r.name@ == t.name@
    &&& r.requests == t.requests
    &&& r.errors == t.errors
    &&& r.latency.mean_ms.num == t.latency.mean_ps * t.requests
    &&& t.requests > 0 ==> r.latency.mean_ms.den == t.requests * 1_000_000_000
}

/// The merged report `r` is the earlier one with the report `t` on top.
pub open spec fn is_on_top(r: TaskSnapshot, before: TaskSnapshot, t: TaskWireSnapshot) -> bool {
    &&& r.name@ == before.name@
    &&& r.requests == before.requests + t.requests
    &&& r.errors == before.errors + t.errors
    &&& r.latency.mean_ms.num == before.latency.mean_ms.num + t.latency.mean_ps * t.requests
    &&& r.requests > 0 ==> r.latency.mean_ms.den == r.requests * 1_000_000_000
}

/// The merged reports `y` are the reports `x` with `t` added to those of its task.
pub open spec fn takes_in_report(
    y: Seq<TaskSnapshot>,
    x: Seq<TaskSnapshot>,
    t: TaskWireSnapshot,
) -> bool {
    &&& forall|i: int|
        0 <= i < x.len() && (#[trigger] x[i]).name@ != t.name@ ==> says_the_same(y, x[i])
    &&& forall|j: int|
        0 <= j < y.len() && (#[trigger] y[j]).name@ != t.name@ ==> says_the_same(x, y[j])
    &&& crate::histogram_laws::has_report(y, t.name@)
    &&& forall|j: int|
        0 <= j < y.len() && (#[trigger] y[j]).name@ == t.name@ ==> {
            &&& !crate::histogram_laws::has_report(x, t.name@) ==> is_alone(y[j], t)
            &&& forall|i: int|
                0 <= i < x.len() && (#[trigger] x[i]).name@ == t.name@ ==> is_on_top(y[j], x[i], t)
        }
}

proof fn lemma_weight_bound(mine: Seq<TaskWireSnapshot>)
    ensures
        crate::wire::task_weight(mine) <= 0xffff_ffff_ffff_ffff * crate::wire::task_requests(mine),
    decreases mine.len(),
{
    if mine.len() == 0 {
        lemma_no_task_sums(mine);
    } else {
        let front = mine.drop_last();
        let t = mine.last();
        lemma_weight_bound(front);
        crate::wire::lemma_task_sums_push(front, t);
        assert(front.push(t) =~= mine);
        assert(t.latency.mean_ps * t.requests <= 0xffff_ffff_ffff_ffff * t.requests)
            by (nonlinear_arith)
            requires
                t.latency.mean_ps <= 0xffff_ffff_ffff_ffff,
                t.requests >= 0,
        ;
    }
}

proof fn lemma_no_task_sums(mine: Seq<TaskWireSnapshot>)
    requires
        mine.len() == 0,
    ensures
        crate::wire::task_requests(mine) == 0,
        crate::wire::task_errors(mine) == 0,
        crate::wire::task_weight(mine) == 0,
{
    assert(mine.map_values(|t: TaskWireSnapshot| t.requests as nat) =~= Seq::<nat>::empty());
    assert(mine.map_values(|t: TaskWireSnapshot| t.errors as nat) =~= Seq::<nat>::empty());
    assert(mine.map_values(|t: TaskWireSnapshot| (t.latency.mean_ps * t.requests) as nat)
        =~= Seq::<nat>::empty());
}

proof fn lemma_merged_mean(r: TaskSnapshot, mine: Seq<TaskWireSnapshot>)
    requires
        crate::wire::is_merged_task(r, mine),
    ensures
        r.latency.mean_ms.num == crate::wire::task_weight(mine),
        r.requests > 0 ==> r.latency.mean_ms.den == r.requests * 1_000_000_000,
{
    lemma_weight_bound(mine);
}

/// The merged reports take in one more report: those of other tasks stay as they
/// are, and its own task has the requests, the errors and the latencies of both.
pub proof fn task_reports_are_added(
    x: Seq<TaskSnapshot>,
    y: Seq<TaskSnapshot>,
    ts: Seq<TaskWireSnapshot>,
    t: TaskWireSnapshot,
)
    requires
        crate::wire::are_merged_tasks(x, ts),
        crate::wire::are_merged_tasks(y, ts.push(t)),
    ensures
        takes_in_report(y, x, t),
{
    let more = ts.push(t);
    let name = t.name@;
    let mine = crate::wire::named(ts, name);
    assert(t.latency.mean_ps * t.requests >= 0) by (nonlinear_arith);
    assert forall|i: int| 0 <= i < x.len() && (#[trigger] x[i]).name@ != name implies says_the_same(
        y,
        x[i],
    ) by {
        let n = x[i].name@;
        crate::wire::lemma_named_push(ts, t, n);
        assert(crate::wire::named(more, n).len() > 0);
        let j = choose|j: int| 0 <= j < y.len() && (#[trigger] y[j]).name@ == n;
        assert(crate::wire::is_merged_task(y[j], crate::wire::named(more, n)));
        lemma_alike(x[i], y[j], crate::wire::named(ts, n));
    }
    assert forall|j: int| 0 <= j < y.len() && (#[trigger] y[j]).name@ != name implies says_the_same(
        x,
        y[j],
    ) by {
        let n = y[j].name@;
        crate::wire::lemma_named_push(ts, t, n);
        assert(crate::wire::named(ts, n).len() > 0);
        let i = choose|i: int| 0 <= i < x.len() && (#[trigger] x[i]).name@ == n;
        assert(crate::wire::is_merged_task(x[i], crate::wire::named(ts, n)));
        lemma_alike(x[i], y[j], crate::wire::named(ts, n));
    }
    crate::wire::lemma_named_push(ts, t, name);
    crate::wire::lemma_task_sums_push(mine, t);
    assert(crate::wire::named(more, name).len() > 0);
    assert forall|j: int| 0 <= j < y.len() && (#[trigger] y[j]).name@ == name implies {
        &&& !crate::histogram_laws::has_report(x, name) ==> is_alone(y[j], t)
        &&& forall|i: int|
            0 <= i < x.len() && (#[trigger] x[i]).name@ == name ==> is_on_top(y[j], x[i], t)
    } by {
        assert(crate::wire::is_merged_task(y[j], mine.push(t)));
        lemma_merged_mean(y[j], mine.push(t));
        if !crate::histogram_laws::has_report(x, name) {
            assert(mine.len() == 0) by {
                if mine.len() > 0 {
                    let i = choose|i: int| 0 <= i < x.len() && (#[trigger] x[i]).name@ == name;
                    assert(crate::histogram_laws::has_report(x, name));
                }
            }
            lemma_no_task_sums(mine);
        }
        assert forall|i: int| 0 <= i < x.len() && (#[trigger] x[i]).name@
            == name implies is_on_top(y[j], x[i], t) by {
            assert(crate::wire::is_merged_task(x[i], mine));
            lemma_merged_mean(x[i], mine);
        }
    }
}

proof fn lemma_alike(a: TaskSnapshot, b: TaskSnapshot, mine: Seq<TaskWireSnapshot>)
    requires
        crate::wire::is_merged_task(a, mine),
        crate::wire::is_merged_task(b, mine),
    ensures
        a.requests == b.requests,
        a.errors == b.errors,
        a.latency == b.latency,
{
}

/// The tasks of a fleet are those that its agents report: an agent that reports
/// one task more adds that report to those of the task, and one that reports none
/// changes nothing.
pub proof fn fleet_tasks_are_added(
    a: AggregatedSnapshot,
    b: AggregatedSnapshot,
    s: Seq<AgentMetricsMsg>,
    m: AgentMetricsMsg,
    more: AgentMetricsMsg,
    t: TaskWireSnapshot,
)
    requires
        crate::wire::is_aggregate(a, s.push(m)),
        crate::wire::is_aggregate(b, s.push(more)),
        more.task_snapshots@ == m.task_snapshots@.push(t),
    ensures
        takes_in_report(b.tasks@, a.tasks@, t),
{
    assert(s.push(m).drop_last() =~= s);
    assert(s.push(more).drop_last() =~= s);
    let ts = crate::wire::all_tasks(s.push(m));
    assert(crate::wire::all_tasks(s.push(more)) =~= ts.push(t));
    task_reports_are_added(a.tasks@, b.tasks@, ts, t);
}

/// An agent without tasks leaves the tasks of the fleet as they are.
pub proof fn agents_without_tasks_add_none(
    a: AggregatedSnapshot,
    b: AggregatedSnapshot,
    s: Seq<AgentMetricsMsg>,
    m: AgentMetricsMsg,
)
    requires
        crate::wire::is_aggregate(a, s),
        crate::wire::is_aggregate(b, s.push(m)),
        m.task_snapshots@.len() == 0,
    ensures
        s.len() == 0 ==> b.tasks@.len() == 0,
        forall|i: int| 0 <= i < a.tasks@.len() ==> says_the_same(b.tasks@, #[trigger] a.tasks@[i]),
        forall|j: int| 0 <= j < b.tasks@.len() ==> says_the_same(a.tasks@, #[trigger] b.tasks@[j]),
{
    let ts = crate::wire::all_tasks(s);
    let x = a.tasks@;
    let y = b.tasks@;
    assert(s.push(m).drop_last() =~= s);
    assert(crate::wire::all_tasks(s.push(m)) =~= ts);
    if s.len() == 0 {
        if y.len() > 0 {
            assert(crate::wire::named(ts, y[0].name@).len() > 0);
        }
    } else {
        assert forall|i: int| 0 <= i < x.len() implies says_the_same(y, #[trigger] x[i]) by {
            let n = x[i].name@;
            assert(crate::wire::named(ts, n).len() > 0);
            let j = choose|j: int| 0 <= j < y.len() && (#[trigger] y[j]).name@ == n;
            lemma_alike(x[i], y[j], crate::wire::named(ts, n));
        }
        assert forall|j: int| 0 <= j < y.len() implies says_the_same(x, #[trigger] y[j]) by {
            let n = y[j].name@;
            assert(crate::wire::named(ts, n).len() > 0);
            let i = choose|i: int| 0 <= i < x.len() && (#[trigger] x[i]).name@ == n;
            lemma_alike(x[i], y[j], crate::wire::named(ts, n));
        }
    }
}

/// How many requests the reports of the task `name` count for latencies of at
/// most `ms`.
pub open spec fn task_at_most(ts: Seq<TaskWireSnapshot>, name: Seq<char>, ms: int) -> nat
    decreases ts.len(),
{
    if ts.len() == 0 {
        0
    } else {
        task_at_most(ts.drop_last(), name, ms) + (if ts.last().name@ == name {
            counted_at_most(ts.last().histogram_buckets@, ms)
        } else {
            0
        })
    }
}

proof fn lemma_task_step(ts: Seq<TaskWireSnapshot>, name: Seq<char>, b: int)
    requires
        0 <= b < 10_000,
    ensures
        task_at_most(ts, name, b) == task_at_most(ts, name, b - 1) + crate::wire::task_count(
            crate::wire::named(ts, name),
            b,
        ),
    decreases ts.len(),
{
    if ts.len() > 0 {
        let front = ts.drop_last();
        let t = ts.last();
        lemma_task_step(front, name, b);
        counted_step(t.histogram_buckets@, b);
        crate::wire::lemma_task_count_push(crate::wire::named(front, name), t, b);
    } else {
        assert(crate::wire::named(ts, name).map_values(
            |t: TaskWireSnapshot| crate::wire::count_in(t.histogram_buckets@, b),
        ) =~= Seq::<nat>::empty());
    }
}

proof fn lemma_counted_rest(entries: Seq<[u64; 2]>)
    ensures
        counted_at_most(entries, u64::MAX as int) == counted_at_most(entries, 9_999)
            + crate::wire::count_in(entries, 10_000),
    decreases entries.len(),
{
    if entries.len() > 0 {
        lemma_counted_rest(entries.drop_last());
    }
}

proof fn lemma_task_rest(ts: Seq<TaskWireSnapshot>, name: Seq<char>)
    ensures
        task_at_most(ts, name, u64::MAX as int) == task_at_most(ts, name, 9_999)
            + crate::wire::task_count(crate::wire::named(ts, name), 10_000),
    decreases ts.len(),
{
    if ts.len() > 0 {
        let front = ts.drop_last();
        let t = ts.last();
        lemma_task_rest(front, name);
        lemma_counted_rest(t.histogram_buckets@);
        crate::wire::lemma_task_count_push(crate::wire::named(front, name), t, 10_000);
    } else {
        assert(crate::wire::named(ts, name).map_values(
            |t: TaskWireSnapshot| crate::wire::count_in(t.histogram_buckets@, 10_000),
        ) =~= Seq::<nat>::empty());
    }
}

proof fn lemma_task_nothing(ts: Seq<TaskWireSnapshot>, name: Seq<char>)
    ensures
        task_at_most(ts, name, -1) == 0,
    decreases ts.len(),
{
    if ts.len() > 0 {
        lemma_task_nothing(ts.drop_last(), name);
        counted_nothing(ts.last().histogram_buckets@);
    }
}

proof fn lemma_highest(counts: Seq<u64>, upto: spec_fn(int) -> nat, k: int)
    requires
        0 <= k <= counts.len() <= 10_001,
        forall|b: int| 0 <= b < 10_000 && b < counts.len() ==> #[trigger] counts[b] == upto(b)
            - upto(b - 1),
    ensures
        0 <= crate::wire::highest(counts.take(k)) <= counts.len(),
        crate::wire::highest(counts.take(k)) < k || k == 0,
        crate::wire::highest(counts.take(k)) > 0 ==> counts[crate::wire::highest(counts.take(k))]
            > 0,
        k <= 10_000 ==> forall|b: int|
            crate::wire::highest(counts.take(k)) <= b < k ==> #[trigger] upto(b) == upto(k - 1),
    decreases k,
{
    if k > 0 {
        assert(counts.take(k).drop_last() =~= counts.take(k - 1));
        assert(counts.take(k).last() == counts[k - 1]);
        lemma_highest(counts, upto, k - 1);
        if counts[k - 1] == 0 && k <= 10_000 {
            assert(upto(k - 1) == upto(k - 2));
            assert forall|b: int| crate::wire::highest(counts.take(k)) <= b < k implies (
            #[trigger] upto(b)) == upto(k - 1) by {}
        }
    }
}

/// The latencies of a task in the merged reports: its percentiles have their ranks
/// among all requests of the task, nothing below ten seconds lies beyond its
/// greatest latency, and nothing below its least.
pub proof fn merged_task_latencies(
    x: Seq<TaskSnapshot>,
    ts: Seq<TaskWireSnapshot>,
    i: int,
)
    requires
        crate::wire::tasks_fit(ts),
        crate::wire::are_merged_tasks(x, ts),
        0 <= i < x.len(),
    ensures
        ({
            let l = x[i].latency;
            let n = x[i].requests as nat;
            let upto = |ms: int| task_at_most(ts, x[i].name@, ms);
            &&& n > 0 ==> crate::report_laws::has_rank(l.p50_ms, upto, n, 50)
            &&& n > 0 ==> crate::report_laws::has_rank(l.p95_ms, upto, n, 95)
            &&& n > 0 ==> crate::report_laws::has_rank(l.p99_ms, upto, n, 99)
            &&& l.max_ms.den == 1
            &&& l.max_ms.num <= 10_000
            &&& l.max_ms.num < 10_000 ==> upto(l.max_ms.num as int) == upto(u64::MAX as int)
            &&& l.max_ms.num > 0 ==> upto(l.max_ms.num - 1) < upto(u64::MAX as int)
            &&& l.min_ms.den == 1
            &&& l.min_ms.num <= 10_000
            &&& l.min_ms.num > 0 ==> upto(l.min_ms.num - 1) == 0
            &&& l.min_ms.num < 10_000 && upto(u64::MAX as int) > 0 ==> upto(l.min_ms.num as int)
                > 0
            &&& upto(u64::MAX as int) == 0 ==> l.min_ms.num == 0
        }),
{
    let name = x[i].name@;
    let mine = crate::wire::named(ts, name);
    let counts = crate::wire::task_histogram(mine);
    let upto = |ms: int| task_at_most(ts, x[i].name@, ms);
    assert(crate::wire::sums_fit(mine));
    assert(crate::wire::is_merged_task(x[i], mine));
    lemma_task_nothing(ts, name);
    assert forall|b: int| 0 <= b < 10_000 implies #[trigger] counts[b] == upto(b) - upto(b - 1) by {
        lemma_task_step(ts, name, b);
        assert(crate::wire::task_count(mine, b) <= u64::MAX);
    }
    if x[i].requests > 0 {
        crate::report_laws::percentiles_have_their_rank(counts, upto, x[i].requests, 50);
        crate::report_laws::percentiles_have_their_rank(counts, upto, x[i].requests, 95);
        crate::report_laws::percentiles_have_their_rank(counts, upto, x[i].requests, 99);
    }
    lemma_task_rest(ts, name);
    assert(crate::wire::task_count(mine, 10_000) <= u64::MAX);
    assert(counts[10_000] == upto(u64::MAX as int) - upto(9_999));
    lemma_highest(counts, upto, 10_001);
    lemma_highest(counts, upto, 10_000);
    assert(counts.take(10_001) =~= counts);
    assert(counts.drop_last() =~= counts.take(10_000));
    let high = crate::wire::highest(counts);
    if high < 10_000 {
        assert(upto(high) == upto(9_999));
        if high > 0 {
            assert(counts[high] == upto(high) - upto(high - 1));
        }
    }
    let low = crate::metrics::reach(counts, 1);
    crate::histogram_laws::reach_is_first(counts, 1);
    if 0 < low <= 10_000 {
        crate::report_laws::lemma_first_counts(counts, upto, low);
    }
    if low < 10_000 {
        crate::report_laws::lemma_first_counts(counts, upto, low + 1);
        if high <= low {
            assert(upto(low) == upto(9_999));
        }
    }
    if low == 10_000 {
        crate::histogram_laws::first_counts_step(counts, 10_000);
    }
    if low > 10_000 {
        crate::report_laws::lemma_first_counts(counts, upto, 10_000);
        crate::histogram_laws::first_counts_step(counts, 10_000);
    }
}

// ── Limits ────────────────────────────────────────────────────────────────────

/// The metrics of no agents at all: nothing, in the first phase.
pub proof fn empty_fleets_report_nothing(a: AggregatedSnapshot)
    requires
        crate::wire::is_aggregate(a, seq![]),
    ensures
        ({
            let zero = Fraction { num: 0, den: 1 };
            &&& a.elapsed_ns == 0
            &&& a.current_rps == zero
            &&& a.target_rps == zero
            &&& a.requests_total == 0
            &&& a.errors_total == 0
            &&& a.active_workers == 0
            &&& a.phase@ == "ramp_up"@
            &&& a.latency.p50_ms == zero
            &&& a.latency.p95_ms == zero
            &&& a.latency.p99_ms == zero
            &&& a.latency.max_ms == zero
            &&& a.latency.min_ms == zero
            &&& a.latency.mean_ms == zero
            &&& a.tasks@.len() == 0
        }),
{
}

/// An agent that sends neither a histogram nor tasks can be taken in exactly as
/// long as the requests, the errors and the workers of all add up to 64 bits.
pub proof fn fleets_fit_while_their_sums_do(
    a: AggregatedSnapshot,
    s: Seq<AgentMetricsMsg>,
    m: AgentMetricsMsg,
)
    requires
        s.len() > 0,
        crate::wire::is_aggregate(a, s),
        crate::wire::agents_fit(s),
        m.histogram_buckets@.len() == 0,
        m.task_snapshots@.len() == 0,
    ensures
        crate::wire::agents_fit(s.push(m)) <==> {
            &&& a.requests_total + m.requests_total <= u64::MAX
            &&& a.errors_total + m.errors_total <= u64::MAX
            &&& a.active_workers + m.active_workers <= u64::MAX
        },
{
    let more = s.push(m);
    crate::wire::lemma_columns_push(s, m);
    assert forall|b: int| 0 <= b < crate::metrics::BUCKETS implies #[trigger] crate::wire::agents_count(
        more,
        b,
    ) <= u64::MAX by {
        crate::wire::lemma_agents_count_push(s, m, b);
        assert(crate::wire::agents_count(s, b) <= u64::MAX);
    }
    assert(more.drop_last() =~= s);
    assert(crate::wire::all_tasks(more) =~= crate::wire::all_tasks(s));
}

} // verus!

//! What the metrics of a fleet say, however its agents are ordered.
use crate::metrics::TaskSnapshot;
use crate::wire::AgentMetricsMsg;
use crate::wire::AggregatedSnapshot;
use crate::wire::TaskWireSnapshot;
use vstd::prelude::*;

verus! {

// ── Extremes and phases ───────────────────────────────────────────────────────

pub(crate) proof fn lemma_greatest(s: Seq<nat>)
    ensures
        forall|i: int| 0 <= i < s.len() ==> #[trigger] s[i] <= crate::wire::greatest(s),
        s.len() > 0 ==> s.contains(crate::wire::greatest(s)),
    decreases s.len(),
{
    if s.len() > 0 {
        let front = s.drop_last();
        lemma_greatest(front);
        assert forall|i: int| 0 <= i < s.len() implies #[trigger] s[i] <= crate::wire::greatest(
            s,
        ) by {
            if i < front.len() {
                assert(front[i] == s[i]);
            }
        }
        assert(s[s.len() - 1] == s.last());
        if front.len() > 0 {
            let j = front.index_of(crate::wire::greatest(front));
            assert(s[j] == crate::wire::greatest(front));
        }
    }
}

pub(crate) proof fn lemma_least(s: Seq<nat>)
    requires
        s.len() > 0,
    ensures
        forall|i: int| 0 <= i < s.len() ==> #[trigger] s[i] >= crate::wire::least(s),
        s.contains(crate::wire::least(s)),
    decreases s.len(),
{
    let front = s.drop_last();
    assert(s[s.len() - 1] == s.last());
    if s.len() > 1 {
        lemma_least(front);
        assert forall|i: int| 0 <= i < s.len() implies #[trigger] s[i] >= crate::wire::least(s) by {
            if i < front.len() {
                assert(front[i] == s[i]);
            }
        }
        let j = front.index_of(crate::wire::least(front));
        assert(s[j] == crate::wire::least(front));
    } else {
        assert(s[0] == crate::wire::least(s));
    }
}

proof fn lemma_extremes_ignore_order(
    s: Seq<AgentMetricsMsg>,
    u: Seq<AgentMetricsMsg>,
    f: spec_fn(AgentMetricsMsg) -> nat,
)
    requires
        s.len() > 0,
        s.to_multiset() == u.to_multiset(),
    ensures
        crate::wire::greatest(s.map_values(f)) == crate::wire::greatest(u.map_values(f)),
        crate::wire::least(s.map_values(f)) == crate::wire::least(u.map_values(f)),
{
    let a = s.map_values(f);
    let b = u.map_values(f);
    crate::number::same_items(s, u);
    lemma_greatest(a);
    lemma_greatest(b);
    lemma_least(a);
    lemma_least(b);
    assert forall|n: nat| a.contains(n) <==> b.contains(n) by {
        if a.contains(n) {
            let i = a.index_of(n);
            assert(s.contains(s[i]));
            let j = u.index_of(s[i]);
            assert(u.contains(s[i]));
            assert(b[j] == n);
        }
        if b.contains(n) {
            let i = b.index_of(n);
            assert(u.contains(u[i]));
            let j = s.index_of(u[i]);
            assert(s.contains(u[i]));
            assert(a[j] == n);
        }
    }
    let ga = crate::wire::greatest(a);
    let gb = crate::wire::greatest(b);
    assert(b[b.index_of(ga)] == ga && a[a.index_of(gb)] == gb) by {
        assert(b.contains(ga) && a.contains(gb));
    }
    let la = crate::wire::least(a);
    let lb = crate::wire::least(b);
    assert(b[b.index_of(la)] == la && a[a.index_of(lb)] == lb) by {
        assert(b.contains(la) && a.contains(lb));
    }
}

/// One of the names of the phases.
pub open spec fn is_phase_name(name: Seq<char>) -> bool {
    ||| name == "ramp_up"@
    ||| name == "steady"@
    ||| name == "ramp_down"@
    ||| name == "done"@
}

proof fn lemma_phase_ignores_order(s: Seq<AgentMetricsMsg>, u: Seq<AgentMetricsMsg>)
    requires
        s.to_multiset() == u.to_multiset(),
        forall|i: int| 0 <= i < s.len() ==> is_phase_name((#[trigger] s[i]).phase@),
    ensures
        crate::wire::overall_phase(crate::wire::phases_of(s)) == crate::wire::overall_phase(
            crate::wire::phases_of(u),
        ),
{
    let a = crate::wire::phases_of(s);
    let b = crate::wire::phases_of(u);
    let pa = crate::wire::overall_phase(a);
    let pb = crate::wire::overall_phase(b);
    crate::number::same_items(s, u);
    crate::wire::done_when_all_are_done(a);
    crate::wire::done_when_all_are_done(b);
    assert forall|n: Seq<char>| a.contains(n) <==> b.contains(n) by {
        if a.contains(n) {
            let i = a.index_of(n);
            assert(s.contains(s[i]));
            assert(u.contains(s[i]));
            let j = u.index_of(s[i]);
            assert(b[j] == n);
        }
        if b.contains(n) {
            let i = b.index_of(n);
            assert(u.contains(u[i]));
            assert(s.contains(u[i]));
            let j = s.index_of(u[i]);
            assert(a[j] == n);
        }
    }
    assert forall|n: Seq<char>| a.contains(n) implies is_phase_name(n) by {
        let i = a.index_of(n);
        assert(a[i] == s[i].phase@);
    }
    if pa == "done"@ {
        if pb != "done"@ {
            assert(b.contains(pb));
            assert(a.contains(pb));
            assert(a[a.index_of(pb)] == pb);
        }
    } else {
        assert(a.contains(pa));
        assert(b.contains(pa));
        assert(b[b.index_of(pa)] == pa);
        assert(pb != "done"@);
        assert(b.contains(pb));
        assert(a.contains(pb));
        assert(a[a.index_of(pb)] == pb);
        assert(crate::wire::priority(pa) == crate::wire::priority(pb));
    }
}

proof fn lemma_histograms_ignore_order(s: Seq<AgentMetricsMsg>, u: Seq<AgentMetricsMsg>)
    requires
        s.to_multiset() == u.to_multiset(),
    ensures
        crate::wire::has_histograms(s) == crate::wire::has_histograms(u),
        crate::wire::agents_histogram(s) == crate::wire::agents_histogram(u),
{
    crate::number::same_items(s, u);
    if crate::wire::has_histograms(s) {
        let i = choose|i: int| 0 <= i < s.len() && (#[trigger] s[i]).histogram_buckets@.len() > 0;
        assert(s.contains(s[i]));
        assert(u.contains(s[i]));
        assert(u[u.index_of(s[i])] == s[i]);
    }
    if crate::wire::has_histograms(u) {
        let i = choose|i: int| 0 <= i < u.len() && (#[trigger] u[i]).histogram_buckets@.len() > 0;
        assert(u.contains(u[i]));
        assert(s.contains(u[i]));
        assert(s[s.index_of(u[i])] == u[i]);
    }
    assert forall|b: int| #[trigger] crate::wire::agents_count(s, b) == crate::wire::agents_count(
        u,
        b,
    ) by {
        crate::number::total_ignores_order(
            s,
            u,
            |m: AgentMetricsMsg| crate::wire::count_in(m.histogram_buckets@, b),
        );
    }
    assert(crate::wire::agents_histogram(s) =~= crate::wire::agents_histogram(u));
}

// ── Tasks ─────────────────────────────────────────────────────────────────────

proof fn lemma_named_joins(
    a: Seq<TaskWireSnapshot>,
    b: Seq<TaskWireSnapshot>,
    name: Seq<char>,
)
    ensures
        crate::wire::named(a + b, name) == crate::wire::named(a, name) + crate::wire::named(
            b,
            name,
        ),
    decreases b.len(),
{
    if b.len() == 0 {
        assert(a + b =~= a);
        assert(crate::wire::named(a, name) + crate::wire::named(b, name) =~= crate::wire::named(
            a,
            name,
        ));
    } else {
        lemma_named_joins(a, b.drop_last(), name);
        assert((a + b).drop_last() =~= a + b.drop_last());
        assert((a + b).last() == b.last());
        let x = crate::wire::named(a, name);
        let y = crate::wire::named(b.drop_last(), name);
        assert((x + y).push(b.last()) =~= x + y.push(b.last()));
    }
}

/// What the reports of one task in one agent's report add up to.
spec fn agent_sum(
    m: AgentMetricsMsg,
    name: Seq<char>,
    g: spec_fn(TaskWireSnapshot) -> nat,
) -> nat {
    crate::number::total(crate::wire::named(m.task_snapshots@, name).map_values(g))
}

proof fn lemma_task_sum(
    s: Seq<AgentMetricsMsg>,
    name: Seq<char>,
    g: spec_fn(TaskWireSnapshot) -> nat,
)
    ensures
        crate::number::total(
            crate::wire::named(crate::wire::all_tasks(s), name).map_values(g),
        ) == crate::number::total(s.map_values(|m: AgentMetricsMsg| agent_sum(m, name, g))),
    decreases s.len(),
{
    let f = |m: AgentMetricsMsg| agent_sum(m, name, g);
    if s.len() == 0 {
        assert(crate::wire::named(crate::wire::all_tasks(s), name).map_values(g)
            =~= s.map_values(f));
    } else {
        let front = s.drop_last();
        let list = s.last().task_snapshots@;
        lemma_task_sum(front, name, g);
        lemma_named_joins(crate::wire::all_tasks(front), list, name);
        let x = crate::wire::named(crate::wire::all_tasks(front), name);
        let y = crate::wire::named(list, name);
        assert((x + y).map_values(g) =~= x.map_values(g) + y.map_values(g));
        crate::number::total_concat(x.map_values(g), y.map_values(g));
        assert(s.map_values(f).drop_last() =~= front.map_values(f));
    }
}

proof fn lemma_task_sum_ignores_order(
    s: Seq<AgentMetricsMsg>,
    u: Seq<AgentMetricsMsg>,
    name: Seq<char>,
    g: spec_fn(TaskWireSnapshot) -> nat,
)
    requires
        s.to_multiset() == u.to_multiset(),
    ensures
        crate::number::total(
            crate::wire::named(crate::wire::all_tasks(s), name).map_values(g),
        ) == crate::number::total(
            crate::wire::named(crate::wire::all_tasks(u), name).map_values(g),
        ),
{
    lemma_task_sum(s, name, g);
    lemma_task_sum(u, name, g);
    crate::number::total_ignores_order(s, u, |m: AgentMetricsMsg| agent_sum(m, name, g));
}

proof fn lemma_total_of_ones<A>(s: Seq<A>, f: spec_fn(A) -> nat)
    requires
        forall|x: A| #[trigger] f(x) == 1,
    ensures
        crate::number::total(s.map_values(f)) == s.len(),
    decreases s.len(),
{
    if s.len() > 0 {
        lemma_total_of_ones(s.drop_last(), f);
        assert(s.map_values(f).drop_last() =~= s.drop_last().map_values(f));
    }
}

/// The merged report of a task does not depend on the order of the agents.
proof fn lemma_task_ignores_order(
    s: Seq<AgentMetricsMsg>,
    u: Seq<AgentMetricsMsg>,
    name: Seq<char>,
    x: TaskSnapshot,
    y: TaskSnapshot,
)
    requires
        s.to_multiset() == u.to_multiset(),
    ensures
        ({
            let a = crate::wire::named(crate::wire::all_tasks(s), name);
            let b = crate::wire::named(crate::wire::all_tasks(u), name);
            &&& a.len() == b.len()
            &&& crate::wire::is_merged_task(x, a) && crate::wire::is_merged_task(y, b)
                ==> x.requests == y.requests && x.errors == y.errors && x.latency == y.latency
        }),
{
    let a = crate::wire::named(crate::wire::all_tasks(s), name);
    let b = crate::wire::named(crate::wire::all_tasks(u), name);
    let one = |t: TaskWireSnapshot| 1nat;
    lemma_task_sum_ignores_order(s, u, name, one);
    lemma_total_of_ones(a, one);
    lemma_total_of_ones(b, one);
    lemma_task_sum_ignores_order(s, u, name, |t: TaskWireSnapshot| t.requests as nat);
    lemma_task_sum_ignores_order(s, u, name, |t: TaskWireSnapshot| t.errors as nat);
    lemma_task_sum_ignores_order(
        s,
        u,
        name,
        |t: TaskWireSnapshot| (t.latency.mean_ps * t.requests) as nat,
    );
    assert forall|n: int| #[trigger] crate::wire::task_count(a, n) == crate::wire::task_count(
        b,
        n,
    ) by {
        lemma_task_sum_ignores_order(
            s,
            u,
            name,
            |t: TaskWireSnapshot| crate::wire::count_in(t.histogram_buckets@, n),
        );
    }
    assert(crate::wire::task_histogram(a) =~= crate::wire::task_histogram(b));
}

/// The names of the reports.
pub open spec fn names_of(tasks: Seq<TaskSnapshot>) -> Seq<Seq<char>> {
    tasks.map_values(|t: TaskSnapshot| t.name@)
}

/// Two ascending lists of the same texts are the same list.
pub proof fn ascending_lists_agree(a: Seq<Seq<char>>, b: Seq<Seq<char>>)
    requires
        crate::map::ascending(a),
        crate::map::ascending(b),
        forall|x: Seq<char>| #[trigger] a.contains(x) <==> b.contains(x),
    ensures
        a == b,
    decreases a.len(),
{
    if a.len() == 0 {
        if b.len() > 0 {
            assert(b.contains(b[0]));
            assert(a.contains(b[0]));
        }
        assert(a =~= b);
    } else {
        assert(a.contains(a[a.len() - 1]));
        assert(b.contains(a.last()));
        assert(b.contains(b[b.len() - 1]));
        assert(a.contains(b.last()));
        let i = b.index_of(a.last());
        let j = a.index_of(b.last());
        if a.last() != b.last() {
            assert(crate::text::text_less(b[i], b[b.len() - 1]));
            assert(crate::text::text_less(a[j], a[a.len() - 1]));
            crate::text::text_less_transitive(a.last(), b.last(), a.last());
            crate::text::text_less_irreflexive(a.last());
        }
        let fa = a.drop_last();
        let fb = b.drop_last();
        crate::map::ascending_distinct(a);
        crate::map::ascending_distinct(b);
        assert forall|x: Seq<char>| #[trigger] fa.contains(x) <==> fb.contains(x) by {
            if fa.contains(x) {
                let k = fa.index_of(x);
                assert(a[k] == x);
                assert(a.contains(x));
                assert(b.contains(x));
                let l = b.index_of(x);
                assert(x != a.last());
                assert(fb[l] == x);
            }
            if fb.contains(x) {
                let k = fb.index_of(x);
                assert(b[k] == x);
                assert(b.contains(x));
                assert(a.contains(x));
                let l = a.index_of(x);
                assert(x != b.last());
                assert(fa[l] == x);
            }
        }
        ascending_lists_agree(fa, fb);
        assert(a =~= fa.push(a.last()));
        assert(b =~= fb.push(b.last()));
    }
}

/// Two lists of merged reports say the same of the same tasks, in the same order.
pub open spec fn same_tasks(x: Seq<TaskSnapshot>, y: Seq<TaskSnapshot>) -> bool {
    &&& x.len() == y.len()
    &&& forall|i: int|
        0 <= i < x.len() ==> {
            &&& (#[trigger] x[i]).name@ == y[i].name@
            &&& x[i].requests == y[i].requests
            &&& x[i].errors == y[i].errors
            &&& x[i].latency == y[i].latency
        }
}

proof fn lemma_tasks_ignore_order(
    s: Seq<AgentMetricsMsg>,
    u: Seq<AgentMetricsMsg>,
    x: Seq<TaskSnapshot>,
    y: Seq<TaskSnapshot>,
)
    requires
        s.to_multiset() == u.to_multiset(),
        crate::wire::are_merged_tasks(x, crate::wire::all_tasks(s)),
        crate::wire::are_merged_tasks(y, crate::wire::all_tasks(u)),
    ensures
        same_tasks(x, y),
{
    let a = names_of(x);
    let b = names_of(y);
    let ts = crate::wire::all_tasks(s);
    let tu = crate::wire::all_tasks(u);
    assert(crate::map::ascending(a)) by {
        assert forall|i: int, j: int| 0 <= i < j < a.len() implies crate::text::text_less(
            #[trigger] a[i],
            #[trigger] a[j],
        ) by {
            assert(a[i] == x[i].name@ && a[j] == x[j].name@);
        }
    }
    assert(crate::map::ascending(b)) by {
        assert forall|i: int, j: int| 0 <= i < j < b.len() implies crate::text::text_less(
            #[trigger] b[i],
            #[trigger] b[j],
        ) by {
            assert(b[i] == y[i].name@ && b[j] == y[j].name@);
        }
    }
    assert forall|name: Seq<char>| #[trigger] a.contains(name) <==> b.contains(name) by {
        if a.contains(name) {
            let i = a.index_of(name);
            assert(x[i].name@ == name);
            lemma_task_ignores_order(s, u, name, x[i], x[i]);
            assert(crate::wire::named(tu, name).len() > 0);
            let j = choose|j: int| 0 <= j < y.len() && (#[trigger] y[j]).name@ == name;
            assert(b[j] == name);
        }
        if b.contains(name) {
            let i = b.index_of(name);
            assert(y[i].name@ == name);
            lemma_task_ignores_order(s, u, name, y[i], y[i]);
            assert(crate::wire::named(ts, name).len() > 0);
            let j = choose|j: int| 0 <= j < x.len() && (#[trigger] x[j]).name@ == name;
            assert(a[j] == name);
        }
    }
    ascending_lists_agree(a, b);
    assert forall|i: int| 0 <= i < x.len() implies {
        &&& (#[trigger] x[i]).name@ == y[i].name@
        &&& x[i].requests == y[i].requests
        &&& x[i].errors == y[i].errors
        &&& x[i].latency == y[i].latency
    } by {
        assert(a[i] == x[i].name@ && b[i] == y[i].name@);
        lemma_task_ignores_order(s, u, x[i].name@, x[i], y[i]);
    }
}

proof fn lemma_tasks_fit_ignores_order(s: Seq<AgentMetricsMsg>, u: Seq<AgentMetricsMsg>)
    requires
        s.to_multiset() == u.to_multiset(),
        crate::wire::tasks_fit(crate::wire::all_tasks(s)),
    ensures
        crate::wire::tasks_fit(crate::wire::all_tasks(u)),
{
    let tu = crate::wire::all_tasks(u);
    assert forall|name: Seq<char>| crate::wire::sums_fit(
        #[trigger] crate::wire::named(tu, name),
    ) by {
        let a = crate::wire::named(crate::wire::all_tasks(s), name);
        let b = crate::wire::named(tu, name);
        assert(crate::wire::sums_fit(a));
        lemma_task_sum_ignores_order(s, u, name, |t: TaskWireSnapshot| t.requests as nat);
        lemma_task_sum_ignores_order(s, u, name, |t: TaskWireSnapshot| t.errors as nat);
        assert forall|n: int| 0 <= n < crate::metrics::BUCKETS implies #[trigger]
            crate::wire::task_count(b, n) <= u64::MAX by {
            assert(crate::wire::task_count(a, n) <= u64::MAX);
            lemma_task_sum_ignores_order(
                s,
                u,
                name,
                |t: TaskWireSnapshot| crate::wire::count_in(t.histogram_buckets@, n),
            );
        }
    }
}

// ── The whole fleet ───────────────────────────────────────────────────────────

/// Whether the sums of a fleet fit does not depend on the order of its agents.
pub proof fn fit_ignores_order(s: Seq<AgentMetricsMsg>, u: Seq<AgentMetricsMsg>)
    requires
        s.to_multiset() == u.to_multiset(),
        crate::wire::agents_fit(s),
    ensures
        crate::wire::agents_fit(u),
{
    crate::number::total_ignores_order(s, u, |m: AgentMetricsMsg| m.requests_total as nat);
    crate::number::total_ignores_order(s, u, |m: AgentMetricsMsg| m.errors_total as nat);
    crate::number::total_ignores_order(s, u, |m: AgentMetricsMsg| m.active_workers as nat);
    assert forall|b: int| 0 <= b < crate::metrics::BUCKETS implies #[trigger]
        crate::wire::agents_count(u, b) <= u64::MAX by {
        assert(crate::wire::agents_count(s, b) <= u64::MAX);
        crate::number::total_ignores_order(
            s,
            u,
            |m: AgentMetricsMsg| crate::wire::count_in(m.histogram_buckets@, b),
        );
    }
    lemma_tasks_fit_ignores_order(s, u);
}

/// The metrics of a fleet do not depend on the order of its agents: counts,
/// rates, phase, latencies and tasks come out the same.
pub proof fn aggregate_ignores_order(
    a: AggregatedSnapshot,
    b: AggregatedSnapshot,
    s: Seq<AgentMetricsMsg>,
    u: Seq<AgentMetricsMsg>,
)
    requires
        crate::wire::is_aggregate(a, s),
        crate::wire::is_aggregate(b, u),
        s.to_multiset() == u.to_multiset(),
        forall|i: int| 0 <= i < s.len() ==> is_phase_name((#[trigger] s[i]).phase@),
    ensures
        a.elapsed_ns == b.elapsed_ns,
        a.current_rps == b.current_rps,
        a.target_rps == b.target_rps,
        a.requests_total == b.requests_total,
        a.errors_total == b.errors_total,
        a.active_workers == b.active_workers,
        a.phase@ == b.phase@,
        a.latency == b.latency,
        same_tasks(a.tasks@, b.tasks@),
{
    crate::number::same_items(s, u);
    if s.len() > 0 {
        crate::number::total_ignores_order(s, u, |m: AgentMetricsMsg| m.requests_total as nat);
        crate::number::total_ignores_order(s, u, |m: AgentMetricsMsg| m.errors_total as nat);
        crate::number::total_ignores_order(s, u, |m: AgentMetricsMsg| m.active_workers as nat);
        crate::number::total_ignores_order(s, u, |m: AgentMetricsMsg| m.current_nano_rps as nat);
        crate::number::total_ignores_order(s, u, |m: AgentMetricsMsg| m.target_nano_rps as nat);
        crate::number::total_ignores_order(
            s,
            u,
            |m: AgentMetricsMsg| (m.latency.mean_ps * m.requests_total) as nat,
        );
        crate::number::total_ignores_order(s, u, |m: AgentMetricsMsg| m.latency.p50_ps as nat);
        crate::number::total_ignores_order(s, u, |m: AgentMetricsMsg| m.latency.p95_ps as nat);
        crate::number::total_ignores_order(s, u, |m: AgentMetricsMsg| m.latency.p99_ps as nat);
        lemma_extremes_ignore_order(s, u, |m: AgentMetricsMsg| m.elapsed_ns as nat);
        lemma_extremes_ignore_order(s, u, |m: AgentMetricsMsg| m.latency.max_ps as nat);
        lemma_extremes_ignore_order(s, u, |m: AgentMetricsMsg| m.latency.min_ps as nat);
        lemma_histograms_ignore_order(s, u);
        lemma_phase_ignores_order(s, u);
        lemma_tasks_ignore_order(s, u, a.tasks@, b.tasks@);
    }
}

} // verus!

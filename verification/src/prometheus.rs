//! The metrics of a run as Prometheus reads them.
use crate::coordinator::MetricsSnapshot;
use crate::decimal::to_decimal;
use vstd::prelude::*;

verus! {

/// The numbers of a report that are no whole numbers, as they are written.
#[derive(Debug)]
pub struct GaugeTexts {
    pub current_rps: String,
    pub target_rps: String,
    pub p50: String,
    pub p95: String,
    pub p99: String,
    pub max: String,
    pub mean: String,
    pub elapsed: String,
}

/// One metric with its explanation.
pub open spec fn metric(name: Seq<char>, help: Seq<char>, kind: Seq<char>, value: Seq<char>) -> Seq<
    char,
> {
    "# HELP "@ + name + " "@ + help + "\n# TYPE "@ + name + " "@ + kind + "\n"@ + name + " "@
        + value + "\n"@
}

/// The page for a report.
pub open spec fn page(s: MetricsSnapshot, t: GaugeTexts) -> Seq<char> {
    metric(
        "loadpilot_requests_total"@,
        "Total number of HTTP requests made."@,
        "counter"@,
        crate::decimal::decimal(s.requests_total as nat),
    ) + metric(
        "loadpilot_errors_total"@,
        "Total number of failed HTTP requests."@,
        "counter"@,
        crate::decimal::decimal(s.errors_total as nat),
    ) + metric(
        "loadpilot_current_rps"@,
        "Requests per second in the last 1s window."@,
        "gauge"@,
        t.current_rps@,
    ) + metric(
        "loadpilot_target_rps"@,
        "Target requests per second for this phase."@,
        "gauge"@,
        t.target_rps@,
    ) + metric(
        "loadpilot_active_workers"@,
        "Number of in-flight HTTP requests."@,
        "gauge"@,
        crate::decimal::decimal(s.active_workers as nat),
    ) + metric(
        "loadpilot_latency_p50_ms"@,
        "50th percentile latency in milliseconds."@,
        "gauge"@,
        t.p50@,
    ) + metric(
        "loadpilot_latency_p95_ms"@,
        "95th percentile latency in milliseconds."@,
        "gauge"@,
        t.p95@,
    ) + metric(
        "loadpilot_latency_p99_ms"@,
        "99th percentile latency in milliseconds."@,
        "gauge"@,
        t.p99@,
    ) + metric(
        "loadpilot_latency_max_ms"@,
        "Maximum observed latency in milliseconds."@,
        "gauge"@,
        t.max@,
    ) + metric(
        "loadpilot_latency_mean_ms"@,
        "Mean latency in milliseconds."@,
        "gauge"@,
        t.mean@,
    ) + metric(
        "loadpilot_elapsed_secs"@,
        "Seconds elapsed since the test started."@,
        "gauge"@,
        t.elapsed@,
    ) + "# HELP loadpilot_phase Current test phase (0=ramp_up, 1=steady, 2=done).\n# TYPE loadpilot_phase gauge\nloadpilot_phase{phase=\""@
        + crate::scheduler::phase_name(s.phase) + "\"} 1\n"@
}

/// Appends one metric with its explanation.
fn push_metric(out: &mut String, name: &str, help: &str, kind: &str, value: &str)
    ensures
        final(out)@ == old(out)@ + metric(name@, help@, kind@, value@),
{
    let ghost start = out@;
    out.append("# HELP ");
    out.append(name);
    out.append(" ");
    out.append(help);
    out.append("\n# TYPE ");
    out.append(name);
    out.append(" ");
    out.append(kind);
    out.append("\n");
    out.append(name);
    out.append(" ");
    out.append(value);
    out.append("\n");
    proof {
        assert(out@ =~= start + metric(name@, help@, kind@, value@));
    }
}

/// The page for a report.
pub fn render(s: &MetricsSnapshot, t: &GaugeTexts) -> (out: String)
    ensures
        out@ == page(*s, *t),
{
    let mut out = String::new();
    let requests = to_decimal(s.requests_total as u128);
    let errors = to_decimal(s.errors_total as u128);
    let workers = to_decimal(s.active_workers as u128);
    push_metric(
        &mut out,
        "loadpilot_requests_total",
        "Total number of HTTP requests made.",
        "counter",
        requests.as_str(),
    );
    proof {
        assert(out@ =~= metric(
            "loadpilot_requests_total"@,
            "Total number of HTTP requests made."@,
            "counter"@,
            requests@,
        ));
    }
    push_metric(
        &mut out,
        "loadpilot_errors_total",
        "Total number of failed HTTP requests.",
        "counter",
        errors.as_str(),
    );
    push_metric(
        &mut out,
        "loadpilot_current_rps",
        "Requests per second in the last 1s window.",
        "gauge",
        t.current_rps.as_str(),
    );
    push_metric(
        &mut out,
        "loadpilot_target_rps",
        "Target requests per second for this phase.",
        "gauge",
        t.target_rps.as_str(),
    );
    push_metric(
        &mut out,
        "loadpilot_active_workers",
        "Number of in-flight HTTP requests.",
        "gauge",
        workers.as_str(),
    );
    push_metric(
        &mut out,
        "loadpilot_latency_p50_ms",
        "50th percentile latency in milliseconds.",
        "gauge",
        t.p50.as_str(),
    );
    push_metric(
        &mut out,
        "loadpilot_latency_p95_ms",
        "95th percentile latency in milliseconds.",
        "gauge",
        t.p95.as_str(),
    );
    push_metric(
        &mut out,
        "loadpilot_latency_p99_ms",
        "99th percentile latency in milliseconds.",
        "gauge",
        t.p99.as_str(),
    );
    push_metric(
        &mut out,
        "loadpilot_latency_max_ms",
        "Maximum observed latency in milliseconds.",
        "gauge",
        t.max.as_str(),
    );
    push_metric(
        &mut out,
        "loadpilot_latency_mean_ms",
        "Mean latency in milliseconds.",
        "gauge",
        t.mean.as_str(),
    );
    push_metric(
        &mut out,
        "loadpilot_elapsed_secs",
        "Seconds elapsed since the test started.",
        "gauge",
        t.elapsed.as_str(),
    );
    out.append(
        "# HELP loadpilot_phase Current test phase (0=ramp_up, 1=steady, 2=done).\n# TYPE loadpilot_phase gauge\nloadpilot_phase{phase=\"",
    );
    out.append(s.phase.as_str());
    out.append("\"} 1\n");
    out
}

/// The page before the first report.
pub fn no_data() -> (r: &'static str)
    ensures
        r@ == "# loadpilot: no data yet\n"@,
{
    "# loadpilot: no data yet\n"
}

/// The page when the report cannot be read.
pub fn unavailable() -> (r: &'static str)
    ensures
        r@ == "# loadpilot metrics unavailable\n"@,
{
    "# loadpilot metrics unavailable\n"
}

// ── Laws ──────────────────────────────────────────────────────────────────────

/// The page has a line that holds this metric with this value.
#[verifier::opaque]
pub open spec fn shows(page: Seq<char>, name: Seq<char>, value: Seq<char>) -> bool {
    exists|front: Seq<char>, back: Seq<char>|
        page == #[trigger] (front + ("\n"@ + name + " "@ + value + "\n"@) + back)
}

/// The page says of what kind this metric is, after its explanation.
#[verifier::opaque]
pub open spec fn explains(page: Seq<char>, name: Seq<char>, help: Seq<char>, kind: Seq<char>) -> bool {
    exists|front: Seq<char>, back: Seq<char>|
        page == #[trigger] (front + ("# HELP "@ + name + " "@ + help + "\n# TYPE "@ + name + " "@
            + kind + "\n"@) + back)
}

proof fn lemma_shows_last(
    front: Seq<char>,
    name: Seq<char>,
    help: Seq<char>,
    kind: Seq<char>,
    value: Seq<char>,
)
    ensures
        shows(front + metric(name, help, kind, value), name, value),
        explains(front + metric(name, help, kind, value), name, help, kind),
{
    reveal(shows);
    reveal(explains);
    let line = name + " "@ + value + "\n"@;
    assert(front + metric(name, help, kind, value) =~= front + ("# HELP "@ + name + " "@ + help
        + "\n# TYPE "@ + name + " "@ + kind + "\n"@) + line);
    let head = "# HELP "@ + name + " "@ + help + "\n# TYPE "@ + name + " "@ + kind;
    let none = Seq::<char>::empty();
    assert(front + metric(name, help, kind, value) =~= (front + head) + ("\n"@ + name + " "@ + value
        + "\n"@) + none);
}

proof fn lemma_shows_on(a: Seq<char>, b: Seq<char>)
    ensures
        forall|name: Seq<char>, value: Seq<char>| #[trigger]
            shows(a, name, value) ==> shows(a + b, name, value),
        forall|name: Seq<char>, help: Seq<char>, kind: Seq<char>| #[trigger]
            explains(a, name, help, kind) ==> explains(a + b, name, help, kind),
{
    reveal(shows);
    reveal(explains);
    assert forall|name: Seq<char>, help: Seq<char>, kind: Seq<char>| #[trigger]
        explains(a, name, help, kind) implies explains(a + b, name, help, kind) by {
        let text = "# HELP "@ + name + " "@ + help + "\n# TYPE "@ + name + " "@ + kind + "\n"@;
        let (front, back) = choose|front: Seq<char>, back: Seq<char>|
            a == #[trigger] (front + ("# HELP "@ + name + " "@ + help + "\n# TYPE "@ + name + " "@
                + kind + "\n"@) + back);
        assert(a + b =~= front + text + (back + b));
    }
    assert forall|name: Seq<char>, value: Seq<char>| #[trigger] shows(a, name, value) implies shows(
        a + b,
        name,
        value,
    ) by {
        let (front, back) = choose|front: Seq<char>, back: Seq<char>|
            a == #[trigger] (front + ("\n"@ + name + " "@ + value + "\n"@) + back);
        assert(a + b =~= front + ("\n"@ + name + " "@ + value + "\n"@) + (back + b));
    }
}

/// The page shows every number of a report under its own name, with its
/// explanation and its kind, and its phase.
pub proof fn pages_show_every_number(s: MetricsSnapshot, t: GaugeTexts)
    ensures
        ({
            let p = page(s, t);
            let requests = crate::decimal::decimal(s.requests_total as nat);
            let errors = crate::decimal::decimal(s.errors_total as nat);
            let workers = crate::decimal::decimal(s.active_workers as nat);
            &&& shows(p, "loadpilot_requests_total"@, requests)
            &&& shows(p, "loadpilot_errors_total"@, errors)
            &&& shows(p, "loadpilot_current_rps"@, t.current_rps@)
            &&& shows(p, "loadpilot_target_rps"@, t.target_rps@)
            &&& shows(p, "loadpilot_active_workers"@, workers)
            &&& shows(p, "loadpilot_latency_p50_ms"@, t.p50@)
            &&& shows(p, "loadpilot_latency_p95_ms"@, t.p95@)
            &&& shows(p, "loadpilot_latency_p99_ms"@, t.p99@)
            &&& shows(p, "loadpilot_latency_max_ms"@, t.max@)
            &&& shows(p, "loadpilot_latency_mean_ms"@, t.mean@)
            &&& shows(p, "loadpilot_elapsed_secs"@, t.elapsed@)
            &&& explains(
                p,
                "loadpilot_requests_total"@,
                "Total number of HTTP requests made."@,
                "counter"@,
            )
            &&& explains(
                p,
                "loadpilot_errors_total"@,
                "Total number of failed HTTP requests."@,
                "counter"@,
            )
            &&& explains(
                p,
                "loadpilot_current_rps"@,
                "Requests per second in the last 1s window."@,
                "gauge"@,
            )
            &&& explains(
                p,
                "loadpilot_target_rps"@,
                "Target requests per second for this phase."@,
                "gauge"@,
            )
            &&& explains(
                p,
                "loadpilot_active_workers"@,
                "Number of in-flight HTTP requests."@,
                "gauge"@,
            )
            &&& explains(
                p,
                "loadpilot_latency_p50_ms"@,
                "50th percentile latency in milliseconds."@,
                "gauge"@,
            )
            &&& explains(
                p,
                "loadpilot_latency_p95_ms"@,
                "95th percentile latency in milliseconds."@,
                "gauge"@,
            )
            &&& explains(
                p,
                "loadpilot_latency_p99_ms"@,
                "99th percentile latency in milliseconds."@,
                "gauge"@,
            )
            &&& explains(
                p,
                "loadpilot_latency_max_ms"@,
                "Maximum observed latency in milliseconds."@,
                "gauge"@,
            )
            &&& explains(
                p,
                "loadpilot_latency_mean_ms"@,
                "Mean latency in milliseconds."@,
                "gauge"@,
            )
            &&& explains(
                p,
                "loadpilot_elapsed_secs"@,
                "Seconds elapsed since the test started."@,
                "gauge"@,
            )
            &&& exists|front: Seq<char>|
                p == #[trigger] (front + (crate::scheduler::phase_name(s.phase) + "\"} 1\n"@))
        }),
{
    let requests = crate::decimal::decimal(s.requests_total as nat);
    let errors = crate::decimal::decimal(s.errors_total as nat);
    let workers = crate::decimal::decimal(s.active_workers as nat);
    let m1 = metric(
        "loadpilot_requests_total"@,
        "Total number of HTTP requests made."@,
        "counter"@,
        requests,
    );
    let m2 = metric(
        "loadpilot_errors_total"@,
        "Total number of failed HTTP requests."@,
        "counter"@,
        errors,
    );
    let m3 = metric(
        "loadpilot_current_rps"@,
        "Requests per second in the last 1s window."@,
        "gauge"@,
        t.current_rps@,
    );
    let m4 = metric(
        "loadpilot_target_rps"@,
        "Target requests per second for this phase."@,
        "gauge"@,
        t.target_rps@,
    );
    let m5 = metric(
        "loadpilot_active_workers"@,
        "Number of in-flight HTTP requests."@,
        "gauge"@,
        workers,
    );
    let m6 = metric(
        "loadpilot_latency_p50_ms"@,
        "50th percentile latency in milliseconds."@,
        "gauge"@,
        t.p50@,
    );
    let m7 = metric(
        "loadpilot_latency_p95_ms"@,
        "95th percentile latency in milliseconds."@,
        "gauge"@,
        t.p95@,
    );
    let m8 = metric(
        "loadpilot_latency_p99_ms"@,
        "99th percentile latency in milliseconds."@,
        "gauge"@,
        t.p99@,
    );
    let m9 = metric(
        "loadpilot_latency_max_ms"@,
        "Maximum observed latency in milliseconds."@,
        "gauge"@,
        t.max@,
    );
    let m10 = metric(
        "loadpilot_latency_mean_ms"@,
        "Mean latency in milliseconds."@,
        "gauge"@,
        t.mean@,
    );
    let m11 = metric(
        "loadpilot_elapsed_secs"@,
        "Seconds elapsed since the test started."@,
        "gauge"@,
        t.elapsed@,
    );
    let label =
        "# HELP loadpilot_phase Current test phase (0=ramp_up, 1=steady, 2=done).\n# TYPE loadpilot_phase gauge\nloadpilot_phase{phase=\""@;
    let none = Seq::<char>::empty();
    lemma_shows_last(
        none,
        "loadpilot_requests_total"@,
        "Total number of HTTP requests made."@,
        "counter"@,
        requests,
    );
    assert(none + m1 =~= m1);
    lemma_shows_last(
        m1,
        "loadpilot_errors_total"@,
        "Total number of failed HTTP requests."@,
        "counter"@,
        errors,
    );
    lemma_shows_on(m1, m2);
    let a2 = m1 + m2;
    lemma_shows_last(
        a2,
        "loadpilot_current_rps"@,
        "Requests per second in the last 1s window."@,
        "gauge"@,
        t.current_rps@,
    );
    lemma_shows_on(a2, m3);
    let a3 = a2 + m3;
    lemma_shows_last(
        a3,
        "loadpilot_target_rps"@,
        "Target requests per second for this phase."@,
        "gauge"@,
        t.target_rps@,
    );
    lemma_shows_on(a3, m4);
    let a4 = a3 + m4;
    lemma_shows_last(
        a4,
        "loadpilot_active_workers"@,
        "Number of in-flight HTTP requests."@,
        "gauge"@,
        workers,
    );
    lemma_shows_on(a4, m5);
    let a5 = a4 + m5;
    lemma_shows_last(
        a5,
        "loadpilot_latency_p50_ms"@,
        "50th percentile latency in milliseconds."@,
        "gauge"@,
        t.p50@,
    );
    lemma_shows_on(a5, m6);
    let a6 = a5 + m6;
    lemma_shows_last(
        a6,
        "loadpilot_latency_p95_ms"@,
        "95th percentile latency in milliseconds."@,
        "gauge"@,
        t.p95@,
    );
    lemma_shows_on(a6, m7);
    let a7 = a6 + m7;
    lemma_shows_last(
        a7,
        "loadpilot_latency_p99_ms"@,
        "99th percentile latency in milliseconds."@,
        "gauge"@,
        t.p99@,
    );
    lemma_shows_on(a7, m8);
    let a8 = a7 + m8;
    lemma_shows_last(
        a8,
        "loadpilot_latency_max_ms"@,
        "Maximum observed latency in milliseconds."@,
        "gauge"@,
        t.max@,
    );
    lemma_shows_on(a8, m9);
    let a9 = a8 + m9;
    lemma_shows_last(
        a9,
        "loadpilot_latency_mean_ms"@,
        "Mean latency in milliseconds."@,
        "gauge"@,
        t.mean@,
    );
    lemma_shows_on(a9, m10);
    let a10 = a9 + m10;
    lemma_shows_last(
        a10,
        "loadpilot_elapsed_secs"@,
        "Seconds elapsed since the test started."@,
        "gauge"@,
        t.elapsed@,
    );
    lemma_shows_on(a10, m11);
    let a11 = a10 + m11;
    lemma_shows_on(a11, label);
    let a12 = a11 + label;
    let name = crate::scheduler::phase_name(s.phase);
    lemma_shows_on(a12, name);
    lemma_shows_on(a12 + name, "\"} 1\n"@);
    assert(page(s, t) == a12 + name + "\"} 1\n"@);
    assert(page(s, t) =~= a12 + (name + "\"} 1\n"@));
}

} // verus!

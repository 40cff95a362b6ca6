//! The progress of a test in one line.
use crate::decimal::to_decimal;
use crate::number::Fraction;
use crate::text::repeat_char;
use vstd::prelude::*;

verus! {

/// The whole number nearest to `num / den`; of two that are equally near, the
/// even one.
pub open spec fn nearest(num: int, den: int) -> int {
    let q = num / den;
    let r = num % den;
    if 2 * r < den || (2 * r == den && q % 2 == 0) {
        q
    } else {
        q + 1
    }
}

/// `n` with at least two digits.
pub open spec fn two_digits(n: nat) -> Seq<char> {
    if n < 10 {
        "0"@ + crate::decimal::decimal(n)
    } else {
        crate::decimal::decimal(n)
    }
}

/// Minutes and seconds of a time in nanoseconds.
pub open spec fn clock(ns: u64) -> Seq<char> {
    two_digits((ns / 60_000_000_000) as nat) + ":"@ + two_digits(
        (ns / 1_000_000_000 % 60) as nat,
    )
}

/// How much of the test is over, in whole percent.
pub open spec fn progress(elapsed: u64, duration: u64) -> int {
    if duration == 0 {
        0
    } else if elapsed * 100 / duration as int > 100 {
        100
    } else {
        elapsed * 100 / duration as int
    }
}

/// A bar of twenty marks.
pub open spec fn bar(percent: int) -> Seq<char> {
    crate::text::repeated('█', (percent / 5) as nat) + crate::text::repeated(
        '░',
        (20 - percent / 5) as nat,
    )
}

/// The tenths of a percent that `errors` are of `total`.
pub open spec fn error_tenths(errors: u64, total: u64) -> int {
    if total == 0 {
        0
    } else {
        nearest(errors * 1000, total as int)
    }
}

/// A number of tenths with one digit after the point.
pub open spec fn one_digit(tenths: nat) -> Seq<char> {
    crate::decimal::decimal(tenths / 10) + "."@ + crate::decimal::decimal(tenths % 10)
}

/// A fraction rounded to a whole number.
pub open spec fn rounded(f: Fraction) -> Seq<char> {
    crate::decimal::decimal(nearest(f.num as int, f.den as int) as nat)
}

/// The whole number nearest to `num / den`.
pub fn round_half_even(num: u128, den: u128) -> (r: u128)
    requires
        den > 0,
    ensures
        r == nearest(num as int, den as int),
{
    let q: u128 = num / den;
    let r: u128 = num % den;
    if r < den - r || (r == den - r && q % 2 == 0) {
        q
    } else {
        proof {
            assert(q < num) by (nonlinear_arith)
                requires
                    q == num / den,
                    r == num % den,
                    0 < r,
                    2 <= den,
            ;
        }
        q + 1
    }
}

/// `n` with at least two digits.
fn pad_two(n: u64) -> (s: String)
    ensures
        s@ == two_digits(n as nat),
{
    if n < 10 {
        let mut s = "0".to_string();
        let d = to_decimal(n as u128);
        s.append(d.as_str());
        s
    } else {
        to_decimal(n as u128)
    }
}

/// Minutes and seconds of a time in nanoseconds.
fn clock_text(ns: u64) -> (s: String)
    ensures
        s@ == clock(ns),
{
    let mut s = pad_two(ns / 60_000_000_000);
    s.append(":");
    let secs = pad_two(ns / 1_000_000_000 % 60);
    s.append(secs.as_str());
    s
}

/// A fraction rounded to a whole number.
fn rounded_text(f: Fraction) -> (s: String)
    requires
        f.wf(),
    ensures
        s@ == rounded(f),
{
    to_decimal(round_half_even(f.num, f.den))
}

/// What a line shows.
pub struct Status {
    pub name: Seq<char>,
    pub elapsed: u64,
    pub duration: u64,
    pub current_rps: Fraction,
    pub target_rps: Fraction,
    pub requests_total: u64,
    pub errors_total: u64,
    pub p50_ms: Fraction,
    pub p99_ms: Fraction,
}

/// The line that shows all this.
pub open spec fn status_line(t: Status) -> Seq<char> {
    "LoadPilot — "@ + t.name + "  ["@ + clock(t.elapsed) + "/"@ + clock(t.duration) + "]  rps: "@
        + rounded(t.current_rps) + "/"@ + rounded(t.target_rps) + "  total: "@
        + crate::decimal::decimal(t.requests_total as nat) + "  err: "@ + one_digit(
        error_tenths(t.errors_total, t.requests_total) as nat,
    ) + "%  p50: "@ + rounded(t.p50_ms) + "ms  p99: "@ + rounded(t.p99_ms) + "ms  ["@ + bar(
        progress(t.elapsed, t.duration),
    ) + "] "@ + crate::decimal::decimal(progress(t.elapsed, t.duration) as nat) + "%"@
}

/// The progress of a test in one line: name, time, rates, totals, share of
/// errors, latencies and a bar. Times are in nanoseconds.
pub fn render_one_line(
    scenario_name: &str,
    elapsed: u64,
    duration: u64,
    current_rps: Fraction,
    target_rps: Fraction,
    requests_total: u64,
    errors_total: u64,
    p50_ms: Fraction,
    p99_ms: Fraction,
) -> (s: String)
    requires
        current_rps.wf(),
        target_rps.wf(),
        p50_ms.wf(),
        p99_ms.wf(),
    ensures
        s@ == "LoadPilot — "@ + scenario_name@ + "  ["@ + clock(elapsed) + "/"@ + clock(duration)
            + "]  rps: "@ + rounded(current_rps) + "/"@ + rounded(target_rps) + "  total: "@
            + crate::decimal::decimal(requests_total as nat) + "  err: "@ + one_digit(
            error_tenths(errors_total, requests_total) as nat,
        ) + "%  p50: "@ + rounded(p50_ms) + "ms  p99: "@ + rounded(p99_ms) + "ms  ["@ + bar(
            progress(elapsed, duration),
        ) + "] "@ + crate::decimal::decimal(progress(elapsed, duration) as nat) + "%"@,
        s@ == status_line(
            Status {
                name: scenario_name@,
                elapsed,
                duration,
                current_rps,
                target_rps,
                requests_total,
                errors_total,
                p50_ms,
                p99_ms,
            },
        ),
{
    let percent: u64 = if duration == 0 {
        0
    } else {
        let p: u128 = elapsed as u128 * 100 / duration as u128;
        if p > 100 {
            100
        } else {
            p as u64
        }
    };
    proof {
        if duration > 0 {
            assert(elapsed * 100 / duration as int >= 0) by (nonlinear_arith)
                requires
                    elapsed >= 0,
                    duration > 0,
            ;
        }
    }
    let filled: usize = (percent / 5) as usize;
    let tenths: u128 = if requests_total == 0 {
        0
    } else {
        round_half_even(errors_total as u128 * 1000, requests_total as u128)
    };
    let elapsed_text = clock_text(elapsed);
    let duration_text = clock_text(duration);
    let current = rounded_text(current_rps);
    let target = rounded_text(target_rps);
    let total = to_decimal(requests_total as u128);
    let err_whole = to_decimal(tenths / 10);
    let err_part = to_decimal(tenths % 10);
    let p50 = rounded_text(p50_ms);
    let p99 = rounded_text(p99_ms);
    let full = repeat_char('█', filled);
    let empty = repeat_char('░', 20 - filled);
    let percent_text = to_decimal(percent as u128);
    let mut s = "LoadPilot — ".to_string();
    s.append(scenario_name);
    s.append("  [");
    s.append(elapsed_text.as_str());
    s.append("/");
    s.append(duration_text.as_str());
    s.append("]  rps: ");
    s.append(current.as_str());
    s.append("/");
    s.append(target.as_str());
    s.append("  total: ");
    s.append(total.as_str());
    s.append("  err: ");
    let ghost before_error = s@;
    s.append(err_whole.as_str());
    s.append(".");
    s.append(err_part.as_str());
    proof {
        assert(s@ =~= before_error + one_digit(tenths as nat));
    }
    s.append("%  p50: ");
    s.append(p50.as_str());
    s.append("ms  p99: ");
    s.append(p99.as_str());
    s.append("ms  [");
    let ghost before_bar = s@;
    s.append(full.as_str());
    s.append(empty.as_str());
    proof {
        assert(s@ =~= before_bar + bar(percent as int));
    }
    s.append("] ");
    s.append(percent_text.as_str());
    s.append("%");
    s
}

// ── Laws ──────────────────────────────────────────────────────────────────────

/// Rounding gives a whole number that is at most one half away, and of two that
/// are equally near the even one.
pub proof fn rounding_is_nearest(num: int, den: int)
    requires
        num >= 0,
        den > 0,
    ensures
        2 * (nearest(num, den) * den - num) <= den,
        2 * (num - nearest(num, den) * den) <= den,
        2 * (nearest(num, den) * den - num) == den || 2 * (num - nearest(num, den) * den) == den
            ==> nearest(num, den) % 2 == 0,
        nearest(num, den) >= 0,
{
    let q = num / den;
    let r = num % den;
    vstd::arithmetic::div_mod::lemma_fundamental_div_mod(num, den);
    assert(q >= 0) by (nonlinear_arith)
        requires
            q == num / den,
            num >= 0,
            den > 0,
    ;
    assert(q * den == den * q && (q + 1) * den == q * den + den) by (nonlinear_arith);
}

/// A time is shown as its whole minutes and the whole seconds beyond them, each
/// with two digits at least.
pub proof fn clocks_show_minutes_and_seconds(ns: u64)
    ensures
        ({
            let minutes = ns as int / 60_000_000_000;
            let seconds = (ns as int - minutes * 60_000_000_000) / 1_000_000_000;
            &&& clock(ns) == two_digits(minutes as nat) + seq![':'] + two_digits(seconds as nat)
            &&& 0 <= seconds < 60
        }),
{
    reveal_strlit(":");
    assert(":"@ =~= seq![':']);
}

/// Two digits: the number itself, with a zero in front where it has one digit.
pub proof fn two_digits_are_padded(n: nat)
    ensures
        n < 10 ==> two_digits(n).len() == 2 && two_digits(n)[0] == '0' && two_digits(n)[1] as u32
            == 48 + n,
        n >= 10 ==> two_digits(n) == crate::decimal::decimal(n),
        two_digits(n).len() >= 2,
        crate::decimal::value_of(two_digits(n)) == n,
{
    reveal_strlit("0");
    crate::decimal::decimal_value(n);
    crate::decimal::decimals_are_short(n, 0);
    if n < 10 {
        let t = two_digits(n);
        assert(t =~= seq!['0', crate::decimal::digit(n)]);
        assert(t.drop_last() =~= seq!['0']);
        assert(seq!['0'].drop_last() =~= Seq::<char>::empty());
        reveal_with_fuel(crate::decimal::value_of, 3);
    } else {
        crate::decimal::decimal_value(n / 10);
    }
}

/// The progress is the part of the duration that is over, in whole percent, and a
/// hundred from the end on.
pub proof fn progress_is_a_percentage(elapsed: u64, duration: u64)
    ensures
        0 <= progress(elapsed, duration) <= 100,
        duration == 0 ==> progress(elapsed, duration) == 0,
        duration > 0 && elapsed >= duration ==> progress(elapsed, duration) == 100,
        duration > 0 && elapsed < duration ==> progress(elapsed, duration) * duration <= elapsed
            * 100 < (progress(elapsed, duration) + 1) * duration,
{
    if duration > 0 {
        let e = elapsed * 100;
        let d = duration as int;
        let q = e / d;
        vstd::arithmetic::div_mod::lemma_fundamental_div_mod(e, d);
        assert(q >= 0 && (e >= 100 * d ==> q >= 100) && (e < 100 * d ==> q < 100)) by (nonlinear_arith)
            requires
                e == d * q + e % d,
                0 <= e % d < d,
                e >= 0,
                d > 0,
        ;
        assert(q * d <= e && e < (q + 1) * d) by (nonlinear_arith)
            requires
                e == d * q + e % d,
                0 <= e % d < d,
        ;
    }
}

/// A bar has twenty marks, one of them full for each whole five percent, the full
/// ones first.
pub proof fn bars_have_twenty_marks(percent: int, i: int)
    requires
        0 <= percent <= 100,
        0 <= i < 20,
    ensures
        bar(percent).len() == 20,
        bar(percent)[i] == '█' <==> 5 * (i + 1) <= percent,
        bar(percent)[i] == '░' <==> 5 * (i + 1) > percent,
{
}

/// The share of errors in tenths of a percent, to the nearest: none where there is
/// no request.
pub proof fn error_shares_are_tenths(errors: u64, total: u64)
    ensures
        total == 0 ==> error_tenths(errors, total) == 0,
        total > 0 ==> {
            &&& 2 * (error_tenths(errors, total) * total - errors * 1000) <= total
            &&& 2 * (errors * 1000 - error_tenths(errors, total) * total) <= total
        },
{
    if total > 0 {
        rounding_is_nearest(errors * 1000, total as int);
    }
}

/// Tenths are shown as the whole number, a point and one digit.
pub proof fn tenths_have_one_digit(whole: nat, tenth: nat)
    requires
        tenth < 10,
    ensures
        one_digit(whole * 10 + tenth) == crate::decimal::decimal(whole).push('.').push(
            (48 + tenth) as char,
        ),
{
    reveal_strlit(".");
    assert("."@ =~= seq!['.']);
    assert((whole * 10 + tenth) / 10 == whole && (whole * 10 + tenth) % 10 == tenth);
    crate::decimal::decimals_are_short(tenth, 0);
    assert(crate::decimal::decimal(tenth) =~= seq![(48 + tenth) as char]);
    assert(one_digit(whole * 10 + tenth) =~= crate::decimal::decimal(whole).push('.').push(
        (48 + tenth) as char,
    ));
}

/// The line shows `value` between these two texts.
#[verifier::opaque]
pub open spec fn shows(line: Seq<char>, left: Seq<char>, value: Seq<char>, right: Seq<char>) -> bool {
    exists|front: Seq<char>, back: Seq<char>|
        line == #[trigger] (front + (left + value + right) + back)
}

proof fn lemma_shows(front: Seq<char>, left: Seq<char>, value: Seq<char>, right: Seq<char>)
    ensures
        shows(front + left + value + right, left, value, right),
{
    reveal(shows);
    let none = Seq::<char>::empty();
    assert(front + left + value + right =~= front + (left + value + right) + none);
}

proof fn lemma_shows_on(a: Seq<char>, b: Seq<char>)
    ensures
        forall|left: Seq<char>, value: Seq<char>, right: Seq<char>| #[trigger]
            shows(a, left, value, right) ==> shows(a + b, left, value, right),
{
    reveal(shows);
    assert forall|left: Seq<char>, value: Seq<char>, right: Seq<char>| #[trigger]
        shows(a, left, value, right) implies shows(a + b, left, value, right) by {
        let (front, back) = choose|front: Seq<char>, back: Seq<char>|
            a == #[trigger] (front + (left + value + right) + back);
        assert(a + b =~= front + (left + value + right) + (back + b));
    }
}

/// The line shows each number in its place: the times, the current rate before the
/// target, the total, the share of errors, the 50th and the 99th percentile and
/// the progress.
pub proof fn lines_show_every_number(t: Status)
    ensures
        ({
            let line = status_line(t);
            let done = progress(t.elapsed, t.duration);
            let errors = error_tenths(t.errors_total, t.requests_total);
            &&& shows(line, "LoadPilot — "@, t.name, "  ["@)
            &&& shows(line, "  ["@, clock(t.elapsed), "/"@)
            &&& shows(line, "/"@, clock(t.duration), "]  rps: "@)
            &&& shows(line, "]  rps: "@, rounded(t.current_rps), "/"@)
            &&& shows(line, "/"@, rounded(t.target_rps), "  total: "@)
            &&& shows(
                line,
                "  total: "@,
                crate::decimal::decimal(t.requests_total as nat),
                "  err: "@,
            )
            &&& shows(line, "  err: "@, one_digit(errors as nat), "%  p50: "@)
            &&& shows(line, "%  p50: "@, rounded(t.p50_ms), "ms  p99: "@)
            &&& shows(line, "ms  p99: "@, rounded(t.p99_ms), "ms  ["@)
            &&& shows(line, "ms  ["@, bar(done), "] "@)
            &&& shows(line, "] "@, crate::decimal::decimal(done as nat), "%"@)
        }),
{
    let none = Seq::<char>::empty();
    let done = progress(t.elapsed, t.duration);
    let errors = one_digit(error_tenths(t.errors_total, t.requests_total) as nat);
    let total = crate::decimal::decimal(t.requests_total as nat);
    let percent = crate::decimal::decimal(done as nat);
    let a0 = "LoadPilot — "@;
    assert(none + a0 =~= a0);
    let b0 = a0 + t.name;
    let a1 = b0 + "  ["@;
    lemma_shows(none, "LoadPilot — "@, t.name, "  ["@);
    let b1 = a1 + clock(t.elapsed);
    let a2 = b1 + "/"@;
    lemma_shows(b0, "  ["@, clock(t.elapsed), "/"@);
    lemma_shows_on(a1, clock(t.elapsed));
    lemma_shows_on(b1, "/"@);
    let b2 = a2 + clock(t.duration);
    let a3 = b2 + "]  rps: "@;
    lemma_shows(b1, "/"@, clock(t.duration), "]  rps: "@);
    lemma_shows_on(a2, clock(t.duration));
    lemma_shows_on(b2, "]  rps: "@);
    let b3 = a3 + rounded(t.current_rps);
    let a4 = b3 + "/"@;
    lemma_shows(b2, "]  rps: "@, rounded(t.current_rps), "/"@);
    lemma_shows_on(a3, rounded(t.current_rps));
    lemma_shows_on(b3, "/"@);
    let b4 = a4 + rounded(t.target_rps);
    let a5 = b4 + "  total: "@;
    lemma_shows(b3, "/"@, rounded(t.target_rps), "  total: "@);
    lemma_shows_on(a4, rounded(t.target_rps));
    lemma_shows_on(b4, "  total: "@);
    let b5 = a5 + total;
    let a6 = b5 + "  err: "@;
    lemma_shows(b4, "  total: "@, total, "  err: "@);
    lemma_shows_on(a5, total);
    lemma_shows_on(b5, "  err: "@);
    let b6 = a6 + errors;
    let a7 = b6 + "%  p50: "@;
    lemma_shows(b5, "  err: "@, errors, "%  p50: "@);
    lemma_shows_on(a6, errors);
    lemma_shows_on(b6, "%  p50: "@);
    let b7 = a7 + rounded(t.p50_ms);
    let a8 = b7 + "ms  p99: "@;
    lemma_shows(b6, "%  p50: "@, rounded(t.p50_ms), "ms  p99: "@);
    lemma_shows_on(a7, rounded(t.p50_ms));
    lemma_shows_on(b7, "ms  p99: "@);
    let b8 = a8 + rounded(t.p99_ms);
    let a9 = b8 + "ms  ["@;
    lemma_shows(b7, "ms  p99: "@, rounded(t.p99_ms), "ms  ["@);
    lemma_shows_on(a8, rounded(t.p99_ms));
    lemma_shows_on(b8, "ms  ["@);
    let b9 = a9 + bar(done);
    let a10 = b9 + "] "@;
    lemma_shows(b8, "ms  ["@, bar(done), "] "@);
    lemma_shows_on(a9, bar(done));
    lemma_shows_on(b9, "] "@);
    let b10 = a10 + percent;
    let a11 = b10 + "%"@;
    lemma_shows(b9, "] "@, percent, "%"@);
    lemma_shows_on(a10, percent);
    lemma_shows_on(b10, "%"@);
    assert(status_line(t) == a11);
}

} // verus!

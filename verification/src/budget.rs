//! A budget that hands out whole requests and keeps the fractional rest.
use crate::number::mul_div_rem;
use crate::number::Fraction;
use vstd::arithmetic::div_mod;
use vstd::prelude::*;

verus! {

/// A fractional budget of requests. A rate accrues over time; whole requests
/// are handed out and the rest is kept, so that a low rate still fires at the
/// right pace.
///
/// The budget is counted in parts: a request has `unit * per_sec` of them,
/// where `per_sec` is the number of time units in a second and the denominator
/// of every rate divides `unit`.
#[derive(Clone, Copy, Debug, PartialEq, Eq, Structural)]
pub struct RequestBudget {
    pub unit: u128,
    pub per_sec: u64,
    pub rest: u128,
}

/// The parts that accrue in `span` units of time at `rate`.
pub open spec fn parts(rate: Fraction, unit: u128, span: u64) -> int {
    rate.num * (unit / rate.den) * span
}

/// The rate can be counted in parts of `unit`.
pub open spec fn fits_unit(rate: Fraction, unit: u128) -> bool {
    rate.wf() && unit % rate.den == 0
}

impl RequestBudget {
    /// The parts of one request.
    pub open spec fn scale(self) -> int {
        self.unit * self.per_sec
    }

    /// The rest is less than one request.
    pub open spec fn wf(self) -> bool {
        &&& self.unit > 0
        &&& self.per_sec > 0
        &&& self.scale() <= 0x8000_0000_0000_0000_0000_0000_0000_0000
        &&& self.rest < self.scale()
    }

    /// An empty budget.
    pub fn new(unit: u128, per_sec: u64) -> (b: RequestBudget)
        requires
            unit > 0,
            per_sec > 0,
            unit * per_sec <= 0x8000_0000_0000_0000_0000_0000_0000_0000,
        ensures
            b.wf(),
            b.unit == unit,
            b.per_sec == per_sec,
            b.rest == 0,
    {
        proof {
            assert(unit * per_sec > 0) by (nonlinear_arith)
                requires
                    unit > 0,
                    per_sec > 0,
            ;
        }
        RequestBudget { unit, per_sec, rest: 0 }
    }

    /// Lets `rate` requests a second accrue over `span` units of time and hands
    /// out the whole requests.
    ///
    /// Nothing is lost: what was there and what accrued is what is handed out
    /// and what is left, and less than one request is left.
    pub fn accrue(&mut self, rate: Fraction, span: u64) -> (fired: u64)
        requires
            old(self).wf(),
            fits_unit(rate, old(self).unit),
            rate.num * span < u64::MAX * (rate.den * old(self).per_sec),
        ensures
            final(self).wf(),
            final(self).unit == old(self).unit,
            final(self).per_sec == old(self).per_sec,
            fired == (old(self).rest + parts(rate, old(self).unit, span)) / old(self).scale(),
            final(self).rest == (old(self).rest + parts(rate, old(self).unit, span))
                % old(self).scale(),
    {
        let scale: u128 = self.unit * self.per_sec as u128;
        let factor: u128 = self.unit / rate.den;
        let ghost d = rate.den * self.per_sec;
        proof {
            div_mod::lemma_fundamental_div_mod(self.unit as int, rate.den as int);
            assert(self.unit == rate.den * factor);
            assert(factor >= 1) by (nonlinear_arith)
                requires
                    self.unit == rate.den * factor,
                    self.unit > 0,
                    factor >= 0,
                    rate.den > 0,
            ;
            assert(0 < d) by (nonlinear_arith)
                requires
                    d == rate.den * self.per_sec,
                    rate.den > 0,
                    self.per_sec > 0,
            ;
            assert(d * factor == scale) by (nonlinear_arith)
                requires
                    d == rate.den * self.per_sec,
                    self.unit == rate.den * factor,
                    scale == self.unit * self.per_sec,
            ;
            assert(d <= scale) by (nonlinear_arith)
                requires
                    d * factor == scale,
                    factor >= 1,
                    d > 0,
            ;
            assert(u64::MAX * d < 0x1_0000_0000_0000_0000 * d) by (nonlinear_arith)
                requires
                    d > 0,
            ;
        }
        let (q0, r0) = mul_div_rem(rate.num, span, rate.den * self.per_sec as u128);
        proof {
            assert(q0 < u64::MAX) by (nonlinear_arith)
                requires
                    q0 * d + r0 < u64::MAX * d,
                    r0 >= 0,
                    d > 0,
            ;
            assert(r0 * factor + factor <= scale) by (nonlinear_arith)
                requires
                    r0 + 1 <= d,
                    d * factor == scale,
                    factor >= 1,
            ;
        }
        let mut q: u128 = q0;
        let mut r: u128 = r0 * factor + self.rest;
        if r >= scale {
            r = r - scale;
            q = q + 1;
        }
        proof {
            let due = parts(rate, self.unit, span);
            assert(due == (q0 * d + r0) * factor) by (nonlinear_arith)
                requires
                    due == rate.num * factor * span,
                    q0 * d + r0 == rate.num * span,
            ;
            assert((q0 * d + r0) * factor == q0 * scale + r0 * factor) by (nonlinear_arith)
                requires
                    d * factor == scale,
            ;
            assert((q0 + 1) * scale == q0 * scale + scale) by (nonlinear_arith);
            assert(q * scale + r == self.rest + due);
            div_mod::lemma_fundamental_div_mod_converse(self.rest + due, scale as int, q as int, r as int);
        }
        self.rest = r;
        q as u64
    }
}

// ── Laws ──────────────────────────────────────────────────────────────────────

/// The requests that a budget hands out over a run of ticks, each with a rate
/// and a span of time.
pub open spec fn fired_over(b: RequestBudget, ticks: Seq<(Fraction, u64)>) -> int
    decreases ticks.len(),
{
    if ticks.len() == 0 {
        0
    } else {
        fired_over(b, ticks.drop_last()) + (rest_after(b, ticks.drop_last()) + parts(
            ticks.last().0,
            b.unit,
            ticks.last().1,
        )) / b.scale()
    }
}

/// What a budget has left after a run of ticks.
pub open spec fn rest_after(b: RequestBudget, ticks: Seq<(Fraction, u64)>) -> int
    decreases ticks.len(),
{
    if ticks.len() == 0 {
        b.rest as int
    } else {
        (rest_after(b, ticks.drop_last()) + parts(ticks.last().0, b.unit, ticks.last().1))
            % b.scale()
    }
}

/// All that accrues over a run of ticks.
pub open spec fn due_over(b: RequestBudget, ticks: Seq<(Fraction, u64)>) -> int
    decreases ticks.len(),
{
    if ticks.len() == 0 {
        0
    } else {
        due_over(b, ticks.drop_last()) + parts(ticks.last().0, b.unit, ticks.last().1)
    }
}

/// Over any run of ticks the budget neither loses nor invents requests: it
/// hands out the whole part of what it had and what accrued, and what is left
/// is always less than one request.
pub proof fn budget_keeps_pace(b: RequestBudget, ticks: Seq<(Fraction, u64)>)
    requires
        b.wf(),
    ensures
        fired_over(b, ticks) == (b.rest + due_over(b, ticks)) / b.scale(),
        rest_after(b, ticks) == (b.rest + due_over(b, ticks)) % b.scale(),
        0 <= rest_after(b, ticks) < b.scale(),
    decreases ticks.len(),
{
    let scale = b.scale();
    if ticks.len() == 0 {
        div_mod::lemma_fundamental_div_mod_converse(b.rest as int, scale, 0, b.rest as int);
    } else {
        let t = ticks.drop_last();
        budget_keeps_pace(b, t);
        let x = b.rest + due_over(b, t);
        let p = parts(ticks.last().0, b.unit, ticks.last().1);
        div_mod::lemma_fundamental_div_mod(x, scale);
        div_mod::lemma_fundamental_div_mod(x % scale + p, scale);
        let q = x / scale + (x % scale + p) / scale;
        let r = (x % scale + p) % scale;
        assert(scale * (x / scale) + scale * ((x % scale + p) / scale) == scale * q)
            by (nonlinear_arith)
            requires
                q == x / scale + (x % scale + p) / scale,
        ;
        assert(q * scale == scale * q) by (nonlinear_arith);
        div_mod::lemma_fundamental_div_mod_converse(x + p, scale, q, r);
    }
}

/// Ticks of equal length at a whole rate.
pub open spec fn steady_ticks(rps: u64, span: u64, n: nat) -> Seq<(Fraction, u64)> {
    Seq::new(n, |i: int| (Fraction { num: rps as u128, den: 1 }, span))
}

proof fn lemma_due_steady(b: RequestBudget, rps: u64, span: u64, n: nat)
    ensures
        due_over(b, steady_ticks(rps, span, n)) == n * (rps * b.unit * span),
    decreases n,
{
    let ticks = steady_ticks(rps, span, n);
    if n > 0 {
        let m = (n - 1) as nat;
        assert(ticks.drop_last() =~= steady_ticks(rps, span, m));
        lemma_due_steady(b, rps, span, m);
        assert(b.unit / 1 == b.unit);
        assert(ticks.last().0.num * (b.unit / ticks.last().0.den) * span == rps * b.unit * span);
        assert(n * (rps * b.unit * span) == m * (rps * b.unit * span) + rps * b.unit * span)
            by (nonlinear_arith)
            requires
                n == m + 1,
        ;
    } else {
        assert(0 * (rps * b.unit * span) == 0);
    }
}

/// At a steady rate of `rps` requests a second, ticks that add up to whole
/// seconds fire exactly `rps` requests for each of them.
pub proof fn steady_rate_is_met(b: RequestBudget, rps: u64, span: u64, n: nat, secs: nat)
    requires
        b.wf(),
        b.rest == 0,
        n * span == secs * b.per_sec,
    ensures
        fired_over(b, steady_ticks(rps, span, n)) == rps * secs,
        rest_after(b, steady_ticks(rps, span, n)) == 0,
{
    let ticks = steady_ticks(rps, span, n);
    budget_keeps_pace(b, ticks);
    lemma_due_steady(b, rps, span, n);
    assert(n * (rps * b.unit * span) == (rps * secs) * (b.unit * b.per_sec)) by (nonlinear_arith)
        requires
            n * span == secs * b.per_sec,
    ;
    div_mod::lemma_fundamental_div_mod_converse(due_over(b, ticks), b.scale(), rps * secs, 0);
}

/// What accrues is the rate taken over the time: measured in requests, `span`
/// units of time at a rate bring the rate times the part of a second that they
/// are.
pub proof fn accrual_follows_the_rate(b: RequestBudget, rate: Fraction, span: u64)
    requires
        b.wf(),
        fits_unit(rate, b.unit),
    ensures
        parts(rate, b.unit, span) * (rate.den * b.per_sec) == (rate.num * span) * (b.unit
            * b.per_sec),
        b.scale() == b.unit * b.per_sec,
{
    let f = b.unit / rate.den;
    div_mod::lemma_fundamental_div_mod(b.unit as int, rate.den as int);
    assert(b.unit == rate.den * f);
    assert((rate.num * f * span) * (rate.den * b.per_sec) == (rate.num * span) * ((rate.den * f)
        * b.per_sec)) by (nonlinear_arith);
}

} // verus!

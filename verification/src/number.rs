//! Exact arithmetic: fractions, ranks, and division that keeps the rest.
use vstd::prelude::*;

verus! {

/// Nanoseconds in a second.
pub const NANOS_PER_SEC: u64 = 1_000_000_000;

/// The nanoseconds of a number of seconds.
pub open spec fn nanos(secs: u64) -> int {
    secs * 1_000_000_000
}

/// The nanoseconds of a number of seconds.
pub fn nanos_of(secs: u64) -> (n: u128)
    ensures
        n == nanos(secs),
        n <= 0xffff_ffff_ffff_ffff * 1_000_000_000,
{
    secs as u128 * 1_000_000_000
}

/// A non-negative fraction.
#[derive(Clone, Copy, Debug, PartialEq, Eq, Structural)]
pub struct Fraction {
    pub num: u128,
    pub den: u128,
}

impl Fraction {
    /// A fraction has a positive denominator.
    pub open spec fn wf(self) -> bool {
        self.den > 0
    }

    /// `num / den`.
    pub fn new(num: u128, den: u128) -> (f: Fraction)
        requires
            den > 0,
        ensures
            f.wf(),
            f.num == num,
            f.den == den,
    {
        Fraction { num, den }
    }

    /// The whole number `n`.
    pub fn whole(n: u64) -> (f: Fraction)
        ensures
            f.wf(),
            f.num == n,
            f.den == 1,
    {
        Fraction { num: n as u128, den: 1 }
    }
}

/// The least whole number that is not below `a / b`.
pub open spec fn ceil_div(a: int, b: int) -> int {
    if a % b == 0 {
        a / b
    } else {
        a / b + 1
    }
}

/// The rank that the share `share` has among `total` items: `share * total`,
/// rounded up.
pub open spec fn rank(total: nat, share: Fraction) -> int {
    ceil_div(total * share.num, share.den as int)
}

/// Multiplies and divides without losing the rest: `a * n == q * d + r`.
pub fn mul_div_rem(a: u128, n: u64, d: u128) -> (qr: (u128, u128))
    requires
        0 < d <= 0x8000_0000_0000_0000_0000_0000_0000_0000,
        a * n < 0x1_0000_0000_0000_0000 * d,
    ensures
        qr.0 * d + qr.1 == a * n,
        qr.1 < d,
        qr.0 < 0x1_0000_0000_0000_0000,
    decreases n,
{
    if n == 0 {
        proof {
            assert(a * n == 0) by (nonlinear_arith)
                requires
                    n == 0,
            ;
        }
        return (0, 0);
    }
    let h: u64 = n / 2;
    proof {
        assert(a * h <= a * n) by (nonlinear_arith)
            requires
                h <= n,
        ;
    }
    let (q0, r0) = mul_div_rem(a, h, d);
    let mut q: u128 = q0 * 2;
    let mut r: u128 = r0 * 2;
    if r >= d {
        r = r - d;
        q = q + 1;
    }
    proof {
        assert(q * d + r == a * (2 * h)) by (nonlinear_arith)
            requires
                q0 * d + r0 == a * h,
                (q == q0 * 2 && r == r0 * 2) || (q == q0 * 2 + 1 && r == r0 * 2 - d),
        ;
        assert(a * (2 * h) <= a * n) by (nonlinear_arith)
            requires
                2 * h <= n,
        ;
        lemma_quotient_bound(q as int, r as int, d as int, a * (2 * h));
    }
    if n % 2 == 1 {
        let aq: u128 = a / d;
        let ar: u128 = a % d;
        let ghost q1 = q;
        let ghost r1 = r;
        proof {
            assert(aq * d + ar == a) by {
                vstd::arithmetic::div_mod::lemma_fundamental_div_mod(a as int, d as int);
                assert(d * aq == aq * d) by (nonlinear_arith);
            }
            assert(a * 1 <= a * n) by (nonlinear_arith)
                requires
                    1 <= n,
            ;
            lemma_quotient_bound(aq as int, ar as int, d as int, a as int);
        }
        q = q + aq;
        r = r + ar;
        if r >= d {
            r = r - d;
            q = q + 1;
        }
        proof {
            assert(q * d + r == a * n) by (nonlinear_arith)
                requires
                    q1 * d + r1 == a * (2 * h),
                    aq * d + ar == a,
                    n == 2 * h + 1,
                    (q == q1 + aq && r == r1 + ar) || (q == q1 + aq + 1 && r == r1 + ar - d),
            ;
            lemma_quotient_bound(q as int, r as int, d as int, a * n);
        }
    }
    (q, r)
}

proof fn lemma_quotient_bound(q: int, r: int, d: int, t: int)
    requires
        q * d + r == t,
        r >= 0,
        d > 0,
        t < 0x1_0000_0000_0000_0000 * d,
    ensures
        q < 0x1_0000_0000_0000_0000,
{
    assert(q < 0x1_0000_0000_0000_0000) by (nonlinear_arith)
        requires
            q * d + r < 0x1_0000_0000_0000_0000 * d,
            r >= 0,
            d > 0,
    ;
}

// ── Sums ──────────────────────────────────────────────────────────────────────

/// The sum of the numbers.
pub open spec fn total(s: Seq<nat>) -> nat
    decreases s.len(),
{
    if s.len() == 0 {
        0
    } else {
        total(s.drop_last()) + s.last()
    }
}

/// A leading part of the numbers sums up to no more than all of them.
pub proof fn total_monotone(s: Seq<nat>, k: int)
    requires
        0 <= k <= s.len(),
    ensures
        total(s.take(k)) <= total(s),
    decreases s.len() - k,
{
    if k < s.len() {
        total_monotone(s, k + 1);
        assert(s.take(k + 1).drop_last() =~= s.take(k));
    } else {
        assert(s.take(k) =~= s);
    }
}

/// The sum of a leading part grows by the number that comes next.
pub proof fn total_step(s: Seq<nat>, k: int)
    requires
        0 <= k < s.len(),
    ensures
        total(s.take(k + 1)) == total(s.take(k)) + s[k],
{
    assert(s.take(k + 1).drop_last() =~= s.take(k));
}

/// The sum of two lists put together.
pub proof fn total_concat(a: Seq<nat>, b: Seq<nat>)
    ensures
        total(a + b) == total(a) + total(b),
    decreases b.len(),
{
    if b.len() == 0 {
        assert(a + b =~= a);
    } else {
        assert((a + b).drop_last() =~= a + b.drop_last());
        total_concat(a, b.drop_last());
    }
}

/// The sum of a list in which one number was replaced.
pub proof fn total_update(s: Seq<nat>, k: int, v: nat)
    requires
        0 <= k < s.len(),
    ensures
        total(s.update(k, v)) + s[k] == total(s) + v,
    decreases s.len(),
{
    let t = s.update(k, v);
    if k == s.len() - 1 {
        assert(t.drop_last() =~= s.drop_last());
    } else {
        assert(t.drop_last() =~= s.drop_last().update(k, v));
        total_update(s.drop_last(), k, v);
    }
}

// ── Order ─────────────────────────────────────────────────────────────────────

/// Two lists of the same items: the last item of the first stands somewhere in
/// the second, and without it the lists still hold the same items. The result
/// tells where.
pub proof fn same_items_step<A>(s: Seq<A>, u: Seq<A>) -> (k: int)
    requires
        s.len() > 0,
        s.to_multiset() == u.to_multiset(),
    ensures
        0 <= k < u.len(),
        u[k] == s.last(),
        s.drop_last().to_multiset() == u.remove(k).to_multiset(),
        s.len() == u.len(),
{
    vstd::seq_lib::to_multiset_len(s);
    vstd::seq_lib::to_multiset_len(u);
    assert(s.contains(s[s.len() - 1]));
    vstd::seq_lib::to_multiset_contains(s, s.last());
    vstd::seq_lib::to_multiset_contains(u, s.last());
    let k = u.index_of(s.last());
    assert(s.remove(s.len() - 1) =~= s.drop_last());
    vstd::seq_lib::to_multiset_remove(s, s.len() - 1);
    vstd::seq_lib::to_multiset_remove(u, k);
    k
}

/// Two lists of the same items are as long, and each item of one is in the other.
pub proof fn same_items<A>(s: Seq<A>, u: Seq<A>)
    requires
        s.to_multiset() == u.to_multiset(),
    ensures
        s.len() == u.len(),
        forall|x: A| #[trigger] s.contains(x) <==> u.contains(x),
{
    vstd::seq_lib::to_multiset_len(s);
    vstd::seq_lib::to_multiset_len(u);
    assert forall|x: A| #[trigger] s.contains(x) <==> u.contains(x) by {
        vstd::seq_lib::to_multiset_contains(s, x);
        vstd::seq_lib::to_multiset_contains(u, x);
    }
}

/// A sum does not depend on the order of what is added up.
pub proof fn total_ignores_order<A>(s: Seq<A>, u: Seq<A>, f: spec_fn(A) -> nat)
    requires
        s.to_multiset() == u.to_multiset(),
    ensures
        total(s.map_values(f)) == total(u.map_values(f)),
    decreases s.len(),
{
    if s.len() == 0 {
        same_items(s, u);
        assert(s.map_values(f) =~= u.map_values(f));
    } else {
        let k = same_items_step(s, u);
        total_ignores_order(s.drop_last(), u.remove(k), f);
        assert(s.map_values(f).drop_last() =~= s.drop_last().map_values(f));
        let head = u.take(k).map_values(f);
        let tail = u.skip(k + 1).map_values(f);
        let one = seq![f(u[k])];
        assert(u.map_values(f) =~= head + one + tail);
        assert(u.remove(k).map_values(f) =~= head + tail);
        total_concat(head + one, tail);
        total_concat(head, one);
        total_concat(head, tail);
        assert(one.drop_last() =~= Seq::<nat>::empty());
        assert(total(Seq::<nat>::empty()) == 0);
        assert(total(one) == f(u[k]));
    }
}

} // verus!

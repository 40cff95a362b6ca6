//! Decimal notation of natural numbers: writing and reading.
use crate::text::chars_of;
use vstd::prelude::*;

verus! {

/// The digit for `d`, where `d` is below ten.
pub open spec fn digit(d: nat) -> char {
    (d + 48) as char
}

/// The decimal notation of `n`.
pub open spec fn decimal(n: nat) -> Seq<char>
    decreases n,
{
    if n < 10 {
        seq![digit(n)]
    } else {
        decimal(n / 10).push(digit(n % 10))
    }
}

/// Whether `c` is one of the ten digits.
pub open spec fn is_digit(c: char) -> bool {
    '0' <= c <= '9'
}

/// Whether `s` consists of digits.
pub open spec fn all_digits(s: Seq<char>) -> bool {
    forall|i: int| 0 <= i < s.len() ==> is_digit(#[trigger] s[i])
}

/// The number that a row of digits stands for.
pub open spec fn value_of(s: Seq<char>) -> nat
    decreases s.len(),
{
    if s.len() == 0 {
        0
    } else {
        (value_of(s.drop_last()) * 10 + (s.last() as u32 - 48)) as nat
    }
}

/// The digits of a number that may be written with a leading `+`.
pub open spec fn unsigned_part(s: Seq<char>) -> Seq<char> {
    if s.len() > 0 && s[0] == '+' {
        s.skip(1)
    } else {
        s
    }
}

/// The number that `s` denotes: at least one digit, after an optional `+`, and
/// no more than `max`.
pub open spec fn parsed(s: Seq<char>, max: nat) -> Option<nat> {
    let d = unsigned_part(s);
    if d.len() > 0 && all_digits(d) && value_of(d) <= max {
        Some(value_of(d))
    } else {
        None
    }
}

proof fn lemma_value_monotone(s: Seq<char>, k: int)
    requires
        0 <= k <= s.len(),
        all_digits(s),
    ensures
        value_of(s.take(k)) <= value_of(s),
    decreases s.len() - k,
{
    if k < s.len() {
        lemma_value_monotone(s, k + 1);
        assert(s.take(k + 1).drop_last() =~= s.take(k));
        assert(is_digit(s[k]));
    } else {
        assert(s.take(k) =~= s);
    }
}

/// The decimal notation of a number consists of digits, has at least one, and
/// stands for that number.
pub proof fn decimal_value(n: nat)
    ensures
        decimal(n).len() > 0,
        all_digits(decimal(n)),
        value_of(decimal(n)) == n,
    decreases n,
{
    if n < 10 {
        reveal_with_fuel(value_of, 2);
        assert(decimal(n).drop_last() =~= Seq::<char>::empty());
    } else {
        decimal_value(n / 10);
        assert(decimal(n).drop_last() =~= decimal(n / 10));
    }
}

/// Reading back what was written gives the number.
pub proof fn decimal_round_trip(n: nat, max: nat)
    requires
        n <= max,
    ensures
        parsed(decimal(n), max) == Some(n),
{
    decimal_value(n);
    assert(is_digit(decimal(n)[0]));
}

/// Writes `n` in decimal notation.
pub fn to_decimal(n: u128) -> (s: String)
    ensures
        s@ == decimal(n as nat),
    decreases n,
{
    if n < 10 {
        let mut s = String::new();
        s.push((48u8 + n as u8) as char);
        proof {
            assert(s@ =~= decimal(n as nat));
        }
        s
    } else {
        let mut s = to_decimal(n / 10);
        s.push((48u8 + (n % 10) as u8) as char);
        s
    }
}

/// Reads a number in decimal notation, as `usize::from_str` does.
pub fn parse_usize(s: &str) -> (r: Option<usize>)
    ensures
        r is Some <==> parsed(s@, usize::MAX as nat) is Some,
        r matches Some(n) ==> parsed(s@, usize::MAX as nat) == Some(n as nat),
{
    let cs = chars_of(s);
    let start: usize = if cs.len() > 0 && cs[0] == '+' {
        1
    } else {
        0
    };
    let ghost d = unsigned_part(s@);
    proof {
        assert(d =~= cs@.skip(start as int));
    }
    if start >= cs.len() {
        return None;
    }
    let mut value: usize = 0;
    let mut i: usize = start;
    while i < cs.len()
        invariant
            start <= i <= cs@.len(),
            d == cs@.skip(start as int),
            d == unsigned_part(s@),
            d.len() > 0,
            all_digits(d.take(i - start)),
            value == value_of(d.take(i - start)),
        decreases cs@.len() - i,
    {
        let c = cs[i];
        let ghost k = i - start;
        proof {
            assert(d[k] == c);
        }
        if !('0' <= c && c <= '9') {
            proof {
                assert(!is_digit(d[k]));
            }
            return None;
        }
        proof {
            assert(d.take(k + 1).drop_last() =~= d.take(k));
            assert(d.take(k + 1).last() == c);
            assert forall|j: int| 0 <= j < k + 1 implies is_digit(#[trigger] d.take(k + 1)[j]) by {
                if j < k {
                    assert(d.take(k)[j] == d.take(k + 1)[j]);
                }
            }
        }
        let next: u8 = c as u8 - 48;
        if value > (usize::MAX - next as usize) / 10 {
            proof {
                assert(value_of(d.take(k + 1)) > usize::MAX);
                if all_digits(d) {
                    lemma_value_monotone(d, k + 1);
                }
            }
            return None;
        }
        value = value * 10 + next as usize;
        i = i + 1;
    }
    proof {
        assert(d.take(d.len() as int) =~= d);
    }
    Some(value)
}

/// Decimal notation has no leading zero: only zero itself begins with one, and a
/// digit more stands for a number ten times as great.
pub proof fn decimals_are_short(n: nat, d: nat)
    requires
        d < 10,
    ensures
        n < 10 ==> decimal(n).len() == 1 && decimal(n)[0] as u32 == 48 + n,
        n > 0 ==> decimal(n)[0] != '0',
        n > 0 ==> decimal(n * 10 + d) == decimal(n).push((48 + d) as char),
    decreases n,
{
    if n >= 10 {
        decimals_are_short(n / 10, 0);
        decimal_value(n / 10);
    }
    if n > 0 {
        assert((n * 10 + d) / 10 == n && (n * 10 + d) % 10 == d);
    }
}

/// A text is read as a number exactly where it is a row of digits that stands for
/// one that is not too great, with or without a plus sign in front; each digit
/// counts ten times what the next one does.
pub proof fn numbers_are_rows_of_digits(s: Seq<char>, c: char, max: nat)
    requires
        s.len() > 0,
        s[0] != '+',
    ensures
        parsed(seq!['+'] + s, max) == parsed(s, max),
        parsed(seq![], max) is None,
        !('0' <= c <= '9') ==> parsed(s.push(c), max) is None,
        '0' <= c <= '9' ==> (parsed(s.push(c), max) matches Some(n) ==> parsed(s, max) is Some && n
            == parsed(s, max)->0 * 10 + (c as u32 - 48)),
        '0' <= c <= '9' && parsed(s, max) is Some && parsed(s, max)->0 * 10 + (c as u32 - 48) <= max
            ==> parsed(s.push(c), max) is Some,
{
    let more = s.push(c);
    assert((seq!['+'] + s).skip(1) =~= s);
    assert(more.drop_last() =~= s);
    assert(more[s.len() as int] == c);
    assert forall|i: int| 0 <= i < s.len() implies #[trigger] more[i] == s[i] by {}
    if all_digits(more) {
        assert forall|i: int| 0 <= i < s.len() implies is_digit(#[trigger] s[i]) by {
            assert(is_digit(more[i]));
        }
        assert(is_digit(more[s.len() as int]));
    }
    if all_digits(s) && is_digit(c) {
        assert forall|i: int| 0 <= i < more.len() implies is_digit(#[trigger] more[i]) by {
            if i < s.len() {
                assert(is_digit(s[i]));
            }
        }
    }
}

} // verus!

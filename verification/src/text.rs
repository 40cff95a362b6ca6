//! Text as sequences of characters: splitting, trimming, prefixes, decimal
//! numbers and the order of strings.
use vstd::prelude::*;

verus! {

// ── Models ────────────────────────────────────────────────────────────────────

/// The texts that a sequence of strings holds.
pub open spec fn texts(v: Seq<String>) -> Seq<Seq<char>> {
    v.map_values(|s: String| s@)
}

/// Position of the first `c` in `s`, or the length of `s` when there is none.
pub open spec fn find(s: Seq<char>, c: char) -> nat
    decreases s.len(),
{
    if s.len() == 0 {
        0
    } else if s[0] == c {
        0
    } else {
        1 + find(s.drop_first(), c)
    }
}

/// The pieces of `s` between the occurrences of `sep`.
pub open spec fn split(s: Seq<char>, sep: char) -> Seq<Seq<char>>
    decreases s.len(),
{
    if find(s, sep) < s.len() {
        seq![s.take(find(s, sep) as int)] + split(s.skip(find(s, sep) as int + 1), sep)
    } else {
        seq![s]
    }
}

/// Like [`split`], but with at most `n` pieces: the last one keeps every
/// further separator.
pub open spec fn splitn(s: Seq<char>, n: nat, sep: char) -> Seq<Seq<char>>
    decreases n,
{
    if n == 0 {
        seq![]
    } else if n == 1 || find(s, sep) >= s.len() {
        seq![s]
    } else {
        seq![s.take(find(s, sep) as int)] + splitn(
            s.skip(find(s, sep) as int + 1),
            (n - 1) as nat,
            sep,
        )
    }
}

/// Characters with the Unicode property `White_Space`.
pub open spec fn is_space(c: char) -> bool {
    ||| '\u{9}' <= c <= '\u{d}'
    ||| c == ' '
    ||| c == '\u{85}'
    ||| c == '\u{a0}'
    ||| c == '\u{1680}'
    ||| '\u{2000}' <= c <= '\u{200a}'
    ||| c == '\u{2028}'
    ||| c == '\u{2029}'
    ||| c == '\u{202f}'
    ||| c == '\u{205f}'
    ||| c == '\u{3000}'
}

/// `s` without its leading white space.
pub open spec fn trim_front(s: Seq<char>) -> Seq<char>
    decreases s.len(),
{
    if s.len() > 0 && is_space(s[0]) {
        trim_front(s.drop_first())
    } else {
        s
    }
}

/// `s` without its trailing white space.
pub open spec fn trim_back(s: Seq<char>) -> Seq<char>
    decreases s.len(),
{
    if s.len() > 0 && is_space(s.last()) {
        trim_back(s.drop_last())
    } else {
        s
    }
}

/// `s` without white space at either end.
pub open spec fn trimmed(s: Seq<char>) -> Seq<char> {
    trim_back(trim_front(s))
}

/// `s` without the occurrences of `c` at its end.
pub open spec fn without_tail(s: Seq<char>, c: char) -> Seq<char>
    decreases s.len(),
{
    if s.len() > 0 && s.last() == c {
        without_tail(s.drop_last(), c)
    } else {
        s
    }
}

/// `s` begins with `prefix`.
pub open spec fn begins_with(s: Seq<char>, prefix: Seq<char>) -> bool {
    prefix.len() <= s.len() && s.take(prefix.len() as int) == prefix
}

/// `s` with every `c` replaced by `by`.
pub open spec fn replaced(s: Seq<char>, c: char, by: Seq<char>) -> Seq<char>
    decreases s.len(),
{
    if s.len() == 0 {
        s
    } else {
        replaced(s.drop_last(), c, by) + (if s.last() == c {
            by
        } else {
            seq![s.last()]
        })
    }
}

/// Code-point order: the order that `str` has.
pub open spec fn text_less(a: Seq<char>, b: Seq<char>) -> bool
    decreases a.len(),
{
    if b.len() == 0 {
        false
    } else if a.len() == 0 {
        true
    } else if a[0] == b[0] {
        text_less(a.drop_first(), b.drop_first())
    } else {
        a[0] < b[0]
    }
}

/// The pieces put together with `sep` between neighbours.
pub open spec fn joined(parts: Seq<Seq<char>>, sep: Seq<char>) -> Seq<char>
    decreases parts.len(),
{
    if parts.len() == 0 {
        seq![]
    } else if parts.len() == 1 {
        parts[0]
    } else {
        joined(parts.drop_last(), sep) + sep + parts.last()
    }
}

/// `c` written `n` times.
pub open spec fn repeated(c: char, n: nat) -> Seq<char> {
    Seq::new(n, |i: int| c)
}

/// The upper-case form of an ASCII character.
pub open spec fn ascii_upper(c: char) -> char {
    if 'a' <= c <= 'z' {
        (c as u32 - 32) as char
    } else {
        c
    }
}

/// Whether a text consists of ASCII characters.
pub open spec fn is_ascii(s: Seq<char>) -> bool {
    forall|i: int| 0 <= i < s.len() ==> #[trigger] s[i] <= '\u{7f}'
}

/// An ASCII text in upper case.
pub open spec fn ascii_uppercase(s: Seq<char>) -> Seq<char> {
    s.map_values(|c: char| ascii_upper(c))
}

/// Whether a text begins with a word, in any letter case.
pub open spec fn begins_with_word(s: Seq<char>, word: Seq<char>) -> bool {
    &&& word.len() <= s.len()
    &&& is_ascii(s.take(word.len() as int))
    &&& ascii_uppercase(s.take(word.len() as int)) == word
}

/// What is known of an upper-case form: ASCII characters are mapped one by one,
/// both in a leading run of them and in a text that has no others.
pub open spec fn upper_form(s: Seq<char>, upper: Seq<char>) -> bool {
    &&& is_ascii(s) ==> upper == ascii_uppercase(s)
    &&& forall|k: int|
        0 <= k <= s.len() && is_ascii(s.take(k)) ==> upper.len() >= k && #[trigger] upper.take(k)
            == ascii_uppercase(s.take(k))
}

// ── Trusted: std's strings ────────────────────────────────────────────────────

/// `String::push` appends the given character to the end of the string.
pub assume_specification[ String::push ](s: &mut String, c: char)
    ensures
        final(s)@ == old(s)@.push(c),
;

/// The Unicode upper-case form of a text, as `str::to_uppercase` gives it.
pub uninterp spec fn uppercase(s: Seq<char>) -> Seq<char>;

/// `str::to_uppercase` is a function of the text. It maps character by
/// character, so a leading run of ASCII characters becomes the same run in
/// ASCII upper case, and an ASCII text becomes that text in upper case; what it
/// makes of other characters is left to the name.
#[verifier::external_body]
pub(crate) fn to_uppercase(s: &str) -> (r: String)
    ensures
        r@ == uppercase(s@),
        upper_form(s@, r@),
{
    s.to_uppercase()
}

// ── Lemmas ────────────────────────────────────────────────────────────────────

/// `find` gives the position `i` when `c` stands there and not before.
pub proof fn lemma_find_at(s: Seq<char>, c: char, i: int)
    requires
        0 <= i <= s.len(),
        forall|j: int| 0 <= j < i ==> s[j] != c,
        i < s.len() ==> s[i] == c,
    ensures
        find(s, c) == i,
    decreases s.len(),
{
    if i > 0 {
        lemma_find_at(s.drop_first(), c, i - 1);
    }
}

/// Two parts that are joined by `sep` come apart at the first `sep`, when the
/// first part has none.
pub proof fn splitn_of_joined(head: Seq<char>, rest: Seq<char>, n: nat, sep: char)
    requires
        n >= 2,
        !head.contains(sep),
    ensures
        splitn(head + seq![sep] + rest, n, sep) == seq![head] + splitn(rest, (n - 1) as nat, sep),
{
    let s = head + seq![sep] + rest;
    assert forall|j: int| 0 <= j < head.len() implies s[j] != sep by {
        assert(s[j] == head[j]);
        assert(head.contains(head[j]));
    }
    lemma_find_at(s, sep, head.len() as int);
    assert(s.take(head.len() as int) =~= head);
    assert(s.skip(head.len() as int + 1) =~= rest);
}

/// Two parts that are joined by `sep` come apart there, when the first part has
/// none.
pub proof fn split_of_joined(head: Seq<char>, rest: Seq<char>, sep: char)
    requires
        !head.contains(sep),
    ensures
        split(head + seq![sep] + rest, sep) == seq![head] + split(rest, sep),
{
    let s = head + seq![sep] + rest;
    assert forall|j: int| 0 <= j < head.len() implies s[j] != sep by {
        assert(s[j] == head[j]);
        assert(head.contains(head[j]));
    }
    lemma_find_at(s, sep, head.len() as int);
    assert(s.take(head.len() as int) =~= head);
    assert(s.skip(head.len() as int + 1) =~= rest);
}

/// A part without `sep` stays whole.
pub proof fn splitn_of_plain(s: Seq<char>, n: nat, sep: char)
    requires
        n >= 1,
        !s.contains(sep),
    ensures
        splitn(s, n, sep) == seq![s],
{
    assert forall|j: int| 0 <= j < s.len() implies s[j] != sep by {
        assert(s.contains(s[j]));
    }
    lemma_find_at(s, sep, s.len() as int);
}

/// A part without `sep` stays whole.
pub proof fn split_of_plain(s: Seq<char>, sep: char)
    requires
        !s.contains(sep),
    ensures
        split(s, sep) == seq![s],
{
    assert forall|j: int| 0 <= j < s.len() implies s[j] != sep by {
        assert(s.contains(s[j]));
    }
    lemma_find_at(s, sep, s.len() as int);
}

/// Text that neither begins nor ends with white space is not trimmed.
pub proof fn trimmed_unchanged(s: Seq<char>)
    requires
        s.len() > 0,
        !is_space(s[0]),
        !is_space(s.last()),
    ensures
        trimmed(s) == s,
{
}

proof fn lemma_find_bound(s: Seq<char>, c: char)
    ensures
        find(s, c) <= s.len(),
        find(s, c) < s.len() ==> s[find(s, c) as int] == c,
    decreases s.len(),
{
    if s.len() > 0 && s[0] != c {
        lemma_find_bound(s.drop_first(), c);
    }
}

/// The pieces of a split, put together again, are the text.
pub proof fn split_joins(s: Seq<char>, sep: char)
    ensures
        joined(split(s, sep), seq![sep]) == s,
        split(s, sep).len() > 0,
    decreases s.len(),
{
    lemma_find_bound(s, sep);
    let i = find(s, sep) as int;
    if i < s.len() {
        let head = s.take(i);
        let rest = s.skip(i + 1);
        split_joins(rest, sep);
        lemma_joined_front(head, split(rest, sep), seq![sep]);
        assert(head + seq![sep] + rest =~= s);
    } else {
        assert(split(s, sep) =~= seq![s]);
    }
}

proof fn lemma_joined_front(head: Seq<char>, parts: Seq<Seq<char>>, sep: Seq<char>)
    requires
        parts.len() > 0,
    ensures
        joined(seq![head] + parts, sep) == head + sep + joined(parts, sep),
    decreases parts.len(),
{
    let all = seq![head] + parts;
    assert(all.last() == parts.last());
    if parts.len() == 1 {
        assert(all.drop_last() =~= seq![head]);
        assert(joined(seq![head], sep) == head);
        assert(joined(parts, sep) == parts[0]);
    } else {
        assert(all.drop_last() =~= seq![head] + parts.drop_last());
        lemma_joined_front(head, parts.drop_last(), sep);
        assert(head + sep + joined(parts.drop_last(), sep) + sep + parts.last() =~= head + sep + (
        joined(parts.drop_last(), sep) + sep + parts.last()));
    }
}

/// A text is known by the pieces of its split.
pub proof fn split_injective(a: Seq<char>, b: Seq<char>, sep: char)
    requires
        split(a, sep) == split(b, sep),
    ensures
        a == b,
{
    split_joins(a, sep);
    split_joins(b, sep);
}

// ── Conversions ───────────────────────────────────────────────────────────────

/// The characters of `s` as a vector.
pub fn chars_of(s: &str) -> (v: Vec<char>)
    ensures
        v@ == s@,
{
    let mut v: Vec<char> = Vec::new();
    for c in it: s.chars()
        invariant
            v@ == s@.take(it.index() as int),
            it.seq() == s@,
    {
        v.push(c);
    }
    v
}

/// The string that holds the characters `v[from..to]`.
pub fn string_of(v: &Vec<char>, from: usize, to: usize) -> (s: String)
    requires
        from <= to <= v@.len(),
    ensures
        s@ == v@.subrange(from as int, to as int),
{
    let mut s = String::new();
    let mut i: usize = from;
    while i < to
        invariant
            from <= i <= to <= v@.len(),
            s@ == v@.subrange(from as int, i as int),
        decreases to - i,
    {
        s.push(v[i]);
        i = i + 1;
    }
    s
}

// ── Splitting ─────────────────────────────────────────────────────────────────

/// Splits `s` at every `sep`.
pub fn split_at(s: &str, sep: char) -> (out: Vec<String>)
    ensures
        texts(out@) == split(s@, sep),
{
    let cs = chars_of(s);
    let n: usize = cs.len();
    let mut out: Vec<String> = Vec::new();
    let mut start: usize = 0;
    let mut i: usize = 0;
    proof {
        assert(cs@.skip(0) =~= cs@);
        assert(texts(out@) + split(cs@.skip(0), sep) =~= split(cs@, sep));
    }
    while i < n
        invariant
            n == cs@.len(),
            cs@ == s@,
            start <= i <= n,
            forall|j: int| start <= j < i ==> cs@[j] != sep,
            texts(out@) + split(cs@.skip(start as int), sep) == split(s@, sep),
        decreases n - i,
    {
        if cs[i] == sep {
            let ghost rest = cs@.skip(start as int);
            let ghost before = out@;
            let piece = string_of(&cs, start, i);
            proof {
                assert forall|j: int| 0 <= j < i - start implies rest[j] != sep by {
                    assert(rest[j] == cs@[start + j]);
                }
                lemma_find_at(rest, sep, i - start);
                assert(rest.take(i - start) =~= piece@);
                assert(rest.skip(i - start + 1) =~= cs@.skip(i + 1));
            }
            out.push(piece);
            proof {
                assert(texts(out@) =~= texts(before).push(piece@));
                assert(texts(out@) + split(cs@.skip(i + 1), sep) =~= texts(before) + (seq![
                    piece@,
                ] + split(cs@.skip(i + 1), sep)));
            }
            start = i + 1;
        }
        i = i + 1;
    }
    let ghost rest = cs@.skip(start as int);
    let ghost before = out@;
    let piece = string_of(&cs, start, n);
    proof {
        assert forall|j: int| 0 <= j < rest.len() implies rest[j] != sep by {
            assert(rest[j] == cs@[start + j]);
        }
        lemma_find_at(rest, sep, rest.len() as int);
        assert(rest =~= piece@);
    }
    out.push(piece);
    proof {
        assert(texts(out@) =~= texts(before) + seq![piece@]);
    }
    out
}

/// Splits `s` at the first separators into at most `n` pieces.
pub fn splitn_at(s: &str, n: usize, sep: char) -> (out: Vec<String>)
    requires
        n > 0,
    ensures
        texts(out@) == splitn(s@, n as nat, sep),
{
    let cs = chars_of(s);
    let len: usize = cs.len();
    let mut out: Vec<String> = Vec::new();
    let mut start: usize = 0;
    let mut i: usize = 0;
    let mut left: usize = n;
    proof {
        assert(cs@.skip(0) =~= cs@);
        assert(texts(out@) + splitn(cs@.skip(0), n as nat, sep) =~= splitn(cs@, n as nat, sep));
    }
    while i < len && left > 1
        invariant
            len == cs@.len(),
            cs@ == s@,
            start <= i <= len,
            1 <= left <= n,
            left > 1 ==> forall|j: int| start <= j < i ==> cs@[j] != sep,
            texts(out@) + splitn(cs@.skip(start as int), left as nat, sep) == splitn(
                s@,
                n as nat,
                sep,
            ),
        decreases len - i,
    {
        if cs[i] == sep {
            let ghost rest = cs@.skip(start as int);
            let ghost before = out@;
            let piece = string_of(&cs, start, i);
            proof {
                assert forall|j: int| 0 <= j < i - start implies rest[j] != sep by {
                    assert(rest[j] == cs@[start + j]);
                }
                lemma_find_at(rest, sep, i - start);
                assert(rest.take(i - start) =~= piece@);
                assert(rest.skip(i - start + 1) =~= cs@.skip(i + 1));
            }
            out.push(piece);
            proof {
                assert(texts(out@) =~= texts(before).push(piece@));
                assert(texts(out@) + splitn(cs@.skip(i + 1), (left - 1) as nat, sep) =~= texts(
                    before,
                ) + (seq![piece@] + splitn(cs@.skip(i + 1), (left - 1) as nat, sep)));
            }
            start = i + 1;
            left = left - 1;
        }
        i = i + 1;
    }
    let ghost rest = cs@.skip(start as int);
    let ghost before = out@;
    let piece = string_of(&cs, start, len);
    proof {
        if left > 1 {
            assert forall|j: int| 0 <= j < rest.len() implies rest[j] != sep by {
                assert(rest[j] == cs@[start + j]);
            }
            lemma_find_at(rest, sep, rest.len() as int);
        }
        assert(rest =~= piece@);
    }
    out.push(piece);
    proof {
        assert(texts(out@) =~= texts(before) + seq![piece@]);
    }
    out
}

// ── Trimming and prefixes ─────────────────────────────────────────────────────

/// Whether `c` is white space.
pub fn is_whitespace(c: char) -> (r: bool)
    ensures
        r == is_space(c),
{
    ('\u{9}' <= c && c <= '\u{d}') || c == ' ' || c == '\u{85}' || c == '\u{a0}' || c == '\u{1680}'
        || ('\u{2000}' <= c && c <= '\u{200a}') || c == '\u{2028}' || c == '\u{2029}' || c
        == '\u{202f}' || c == '\u{205f}' || c == '\u{3000}'
}

/// `s` without white space at its start.
pub fn trim_start(s: &str) -> (r: String)
    ensures
        r@ == trim_front(s@),
{
    let cs = chars_of(s);
    let mut i: usize = 0;
    proof {
        assert(cs@.skip(0) =~= cs@);
    }
    while i < cs.len() && is_whitespace(cs[i])
        invariant
            cs@ == s@,
            i <= cs@.len(),
            trim_front(cs@.skip(i as int)) == trim_front(s@),
        decreases cs@.len() - i,
    {
        proof {
            assert(cs@.skip(i as int).drop_first() =~= cs@.skip(i + 1));
        }
        i = i + 1;
    }
    let r = string_of(&cs, i, cs.len());
    proof {
        assert(cs@.skip(i as int) =~= r@);
    }
    r
}

/// `s` without white space at either end.
pub fn trim(s: &str) -> (r: String)
    ensures
        r@ == trimmed(s@),
{
    let front = trim_start(s);
    let cs = chars_of(front.as_str());
    let mut n: usize = cs.len();
    proof {
        assert(cs@.take(n as int) =~= cs@);
    }
    while n > 0 && is_whitespace(cs[n - 1])
        invariant
            n <= cs@.len(),
            trim_back(cs@.take(n as int)) == trimmed(s@),
        decreases n,
    {
        proof {
            assert(cs@.take(n as int).drop_last() =~= cs@.take(n - 1));
        }
        n = n - 1;
    }
    let r = string_of(&cs, 0, n);
    proof {
        assert(cs@.take(n as int) =~= r@);
    }
    r
}

/// `s` without the occurrences of `c` at its end.
pub fn trim_end_matches(s: &str, c: char) -> (r: String)
    ensures
        r@ == without_tail(s@, c),
{
    let cs = chars_of(s);
    let mut n: usize = cs.len();
    proof {
        assert(cs@.take(n as int) =~= cs@);
    }
    while n > 0 && cs[n - 1] == c
        invariant
            n <= cs@.len(),
            without_tail(cs@.take(n as int), c) == without_tail(s@, c),
        decreases n,
    {
        proof {
            assert(cs@.take(n as int).drop_last() =~= cs@.take(n - 1));
        }
        n = n - 1;
    }
    let r = string_of(&cs, 0, n);
    proof {
        assert(cs@.take(n as int) =~= r@);
    }
    r
}

/// Whether `s` begins with `prefix`.
pub fn starts_with(s: &str, prefix: &str) -> (r: bool)
    ensures
        r == begins_with(s@, prefix@),
{
    let cs = chars_of(s);
    let ps = chars_of(prefix);
    if ps.len() > cs.len() {
        return false;
    }
    let mut i: usize = 0;
    while i < ps.len()
        invariant
            cs@ == s@,
            ps@ == prefix@,
            i <= ps@.len() <= cs@.len(),
            forall|j: int| 0 <= j < i ==> cs@[j] == ps@[j],
        decreases ps@.len() - i,
    {
        if cs[i] != ps[i] {
            proof {
                assert(cs@.take(ps@.len() as int)[i as int] != ps@[i as int]);
            }
            return false;
        }
        i = i + 1;
    }
    proof {
        assert(cs@.take(ps@.len() as int) =~= ps@);
    }
    true
}

/// What follows `prefix` in `s`, if `s` begins with it.
pub fn strip_prefix(s: &str, prefix: &str) -> (r: Option<String>)
    ensures
        r is Some <==> begins_with(s@, prefix@),
        r matches Some(rest) ==> rest@ == s@.skip(prefix@.len() as int),
{
    if starts_with(s, prefix) {
        let cs = chars_of(s);
        let ps = chars_of(prefix);
        let rest = string_of(&cs, ps.len(), cs.len());
        proof {
            assert(rest@ =~= s@.skip(prefix@.len() as int));
        }
        Some(rest)
    } else {
        None
    }
}

/// The part of `s` before the first `sep`, or all of `s`.
pub fn before(s: &str, sep: char) -> (r: String)
    ensures
        r@ == s@.take(find(s@, sep) as int),
{
    let cs = chars_of(s);
    let mut i: usize = 0;
    while i < cs.len() && cs[i] != sep
        invariant
            cs@ == s@,
            i <= cs@.len(),
            forall|j: int| 0 <= j < i ==> cs@[j] != sep,
        decreases cs@.len() - i,
    {
        i = i + 1;
    }
    proof {
        lemma_find_at(s@, sep, i as int);
    }
    let r = string_of(&cs, 0, i);
    proof {
        assert(r@ =~= s@.take(i as int));
    }
    r
}

/// At most the first `n` characters of `s`.
pub fn take_chars(s: &str, n: usize) -> (r: String)
    ensures
        r@ == s@.take(if n <= s@.len() {
            n as int
        } else {
            s@.len() as int
        }),
{
    let cs = chars_of(s);
    let k: usize = if n <= cs.len() {
        n
    } else {
        cs.len()
    };
    let r = string_of(&cs, 0, k);
    proof {
        assert(r@ =~= s@.take(k as int));
    }
    r
}

/// `s` with every `c` replaced by `by`.
pub fn replace(s: &str, c: char, by: &str) -> (r: String)
    ensures
        r@ == replaced(s@, c, by@),
{
    let cs = chars_of(s);
    let mut r = String::new();
    let mut i: usize = 0;
    while i < cs.len()
        invariant
            cs@ == s@,
            i <= cs@.len(),
            r@ == replaced(cs@.take(i as int), c, by@),
        decreases cs@.len() - i,
    {
        proof {
            assert(cs@.take(i + 1).drop_last() =~= cs@.take(i as int));
        }
        let ghost before = r@;
        if cs[i] == c {
            r.append(by);
        } else {
            r.push(cs[i]);
            proof {
                assert(r@ =~= before + seq![cs@[i as int]]);
            }
        }
        i = i + 1;
    }
    proof {
        assert(cs@.take(cs@.len() as int) =~= s@);
    }
    r
}

/// `c` written `n` times.
pub fn repeat_char(c: char, n: usize) -> (r: String)
    ensures
        r@ == repeated(c, n as nat),
{
    let mut r = String::new();
    let mut i: usize = 0;
    while i < n
        invariant
            i <= n,
            r@ == repeated(c, i as nat),
        decreases n - i,
    {
        r.push(c);
        i = i + 1;
    }
    r
}

/// The parts put together with `sep` between neighbours.
pub fn join(parts: &Vec<String>, sep: &str) -> (r: String)
    ensures
        r@ == joined(texts(parts@), sep@),
{
    let mut r = String::new();
    let mut i: usize = 0;
    while i < parts.len()
        invariant
            i <= parts@.len(),
            r@ == joined(texts(parts@).take(i as int), sep@),
        decreases parts@.len() - i,
    {
        proof {
            assert(texts(parts@).take(i + 1).drop_last() =~= texts(parts@).take(i as int));
            assert(texts(parts@).take(i + 1).last() == parts@[i as int]@);
        }
        if i > 0 {
            r.append(sep);
        }
        r.append(parts[i].as_str());
        i = i + 1;
    }
    proof {
        assert(texts(parts@).take(parts@.len() as int) =~= texts(parts@));
    }
    r
}

/// Whether two texts are the same.
pub fn same_text(a: &str, b: &str) -> (r: bool)
    ensures
        r == (a@ == b@),
{
    let x = chars_of(a);
    let y = chars_of(b);
    if x.len() != y.len() {
        return false;
    }
    let mut i: usize = 0;
    while i < x.len()
        invariant
            x@ == a@,
            y@ == b@,
            x@.len() == y@.len(),
            i <= x@.len(),
            forall|j: int| 0 <= j < i ==> x@[j] == y@[j],
        decreases x@.len() - i,
    {
        if x[i] != y[i] {
            return false;
        }
        i = i + 1;
    }
    proof {
        assert(x@ =~= y@);
    }
    true
}

// ── Order ─────────────────────────────────────────────────────────────────────

/// Whether `a` comes before `b` in the order of strings.
pub fn is_less(a: &str, b: &str) -> (r: bool)
    ensures
        r == text_less(a@, b@),
{
    let x = chars_of(a);
    let y = chars_of(b);
    let mut i: usize = 0;
    proof {
        assert(x@.skip(0) =~= x@);
        assert(y@.skip(0) =~= y@);
    }
    while i < x.len() && i < y.len() && x[i] == y[i]
        invariant
            i <= x@.len(),
            i <= y@.len(),
            text_less(x@.skip(i as int), y@.skip(i as int)) == text_less(a@, b@),
        decreases x@.len() - i,
    {
        proof {
            assert(x@.skip(i as int).drop_first() =~= x@.skip(i + 1));
            assert(y@.skip(i as int).drop_first() =~= y@.skip(i + 1));
        }
        i = i + 1;
    }
    if i >= y.len() {
        return false;
    }
    if i >= x.len() {
        return true;
    }
    x[i] < y[i]
}

/// No text comes before itself.
pub proof fn text_less_irreflexive(a: Seq<char>)
    ensures
        !text_less(a, a),
    decreases a.len(),
{
    if a.len() > 0 {
        text_less_irreflexive(a.drop_first());
    }
}

/// The order of texts is transitive.
pub proof fn text_less_transitive(a: Seq<char>, b: Seq<char>, c: Seq<char>)
    requires
        text_less(a, b),
        text_less(b, c),
    ensures
        text_less(a, c),
    decreases a.len(),
{
    if a.len() > 0 && a[0] == b[0] && b[0] == c[0] {
        text_less_transitive(a.drop_first(), b.drop_first(), c.drop_first());
    }
}

/// Of two different texts one comes before the other.
pub proof fn text_less_total(a: Seq<char>, b: Seq<char>)
    requires
        a != b,
    ensures
        text_less(a, b) || text_less(b, a),
    decreases a.len(),
{
    if a.len() > 0 && b.len() > 0 {
        if a[0] == b[0] {
            if a.drop_first() == b.drop_first() {
                assert(a =~= seq![a[0]] + a.drop_first());
                assert(b =~= seq![b[0]] + b.drop_first());
            } else {
                text_less_total(a.drop_first(), b.drop_first());
            }
        }
    } else if a.len() == 0 && b.len() == 0 {
        assert(a =~= b);
    }
}

// ── Laws of texts ─────────────────────────────────────────────────────────────

/// What stands in front of a run of `c` is kept, and of the run nothing is.
pub proof fn tails_are_cut_off(base: Seq<char>, c: char, n: nat)
    requires
        base.len() > 0 ==> base.last() != c,
    ensures
        without_tail(base + Seq::new(n, |i: int| c), c) == base,
    decreases n,
{
    let s = base + Seq::new(n, |i: int| c);
    if n > 0 {
        let m = (n - 1) as nat;
        assert(s.drop_last() =~= base + Seq::new(m, |i: int| c));
        assert(s.last() == c);
        tails_are_cut_off(base, c, m);
    } else {
        assert(s =~= base);
    }
}

/// White space at either end is cut off, and nothing else.
pub proof fn ends_are_trimmed(front: Seq<char>, s: Seq<char>, back: Seq<char>)
    requires
        forall|i: int| 0 <= i < front.len() ==> is_space(#[trigger] front[i]),
        forall|i: int| 0 <= i < back.len() ==> is_space(#[trigger] back[i]),
        s.len() > 0,
        !is_space(s[0]),
        !is_space(s.last()),
    ensures
        trim_front(front + s + back) == s + back,
        trimmed(front + s + back) == s,
{
    front_is_trimmed(front, s + back);
    assert(front + s + back =~= front + (s + back));
    lemma_back_is_trimmed(s, back);
}

/// White space in front is cut off.
pub proof fn front_is_trimmed(front: Seq<char>, s: Seq<char>)
    requires
        forall|i: int| 0 <= i < front.len() ==> is_space(#[trigger] front[i]),
        s.len() > 0,
        !is_space(s[0]),
    ensures
        trim_front(front + s) == s,
    decreases front.len(),
{
    if front.len() > 0 {
        let rest = front.drop_first();
        assert forall|i: int| 0 <= i < rest.len() implies is_space(#[trigger] rest[i]) by {
            assert(rest[i] == front[i + 1]);
        }
        assert((front + s)[0] == front[0]);
        assert((front + s).drop_first() =~= rest + s);
        front_is_trimmed(rest, s);
    } else {
        assert(front + s =~= s);
    }
}

proof fn lemma_back_is_trimmed(s: Seq<char>, back: Seq<char>)
    requires
        forall|i: int| 0 <= i < back.len() ==> is_space(#[trigger] back[i]),
        s.len() > 0,
        !is_space(s.last()),
    ensures
        trim_back(s + back) == s,
    decreases back.len(),
{
    if back.len() > 0 {
        let rest = back.drop_last();
        assert forall|i: int| 0 <= i < rest.len() implies is_space(#[trigger] rest[i]) by {
            assert(rest[i] == back[i]);
        }
        assert((s + back).last() == back.last());
        assert(is_space(back[back.len() - 1]));
        assert((s + back).drop_last() =~= s + rest);
        lemma_back_is_trimmed(s, rest);
    } else {
        assert(s + back =~= s);
    }
}

/// A text that is all white space has nothing left when it is trimmed.
pub proof fn blanks_are_trimmed(s: Seq<char>)
    requires
        forall|i: int| 0 <= i < s.len() ==> is_space(#[trigger] s[i]),
    ensures
        trimmed(s).len() == 0,
    decreases s.len(),
{
    if s.len() > 0 {
        let rest = s.drop_first();
        assert forall|i: int| 0 <= i < rest.len() implies is_space(#[trigger] rest[i]) by {
            assert(rest[i] == s[i + 1]);
        }
        blanks_are_trimmed(rest);
    }
}

/// White space by its code points: tab to carriage return, space, next line,
/// no-break space, and the spaces and separators further up.
pub proof fn white_space_by_code_point(c: char)
    ensures
        is_space(c) <==> {
            let n = c as u32;
            ||| 9 <= n <= 13
            ||| n == 32
            ||| n == 133
            ||| n == 160
            ||| n == 5760
            ||| 8192 <= n <= 8202
            ||| n == 8232
            ||| n == 8233
            ||| n == 8239
            ||| n == 8287
            ||| n == 12288
        },
{
}

/// A text begins with a prefix exactly where it is the prefix and something that
/// follows it.
pub proof fn prefixes_come_first(prefix: Seq<char>, rest: Seq<char>, s: Seq<char>)
    ensures
        begins_with(prefix + rest, prefix),
        begins_with(s, prefix) ==> s == prefix + s.skip(prefix.len() as int),
{
    assert((prefix + rest).take(prefix.len() as int) =~= prefix);
    if begins_with(s, prefix) {
        assert(s =~= s.take(prefix.len() as int) + s.skip(prefix.len() as int));
    }
}

/// Replacing goes character by character: the one that is replaced gives way to
/// the new text, and every other stays.
pub proof fn replacing_goes_by_characters(a: Seq<char>, x: char, c: char, by: Seq<char>)
    ensures
        replaced(a.push(x), c, by) == replaced(a, c, by) + (if x == c {
            by
        } else {
            seq![x]
        }),
        replaced(seq![], c, by).len() == 0,
{
    assert(a.push(x).drop_last() =~= a);
}

/// The first difference decides which of two texts comes first, and a text comes
/// before those that go on after it.
pub proof fn first_difference_decides(
    same: Seq<char>,
    x: char,
    a: Seq<char>,
    y: char,
    b: Seq<char>,
)
    ensures
        x < y ==> text_less(same + seq![x] + a, same + seq![y] + b),
        x > y ==> !text_less(same + seq![x] + a, same + seq![y] + b),
        text_less(same, same + seq![x] + a),
        !text_less(same + seq![x] + a, same),
    decreases same.len(),
{
    let p = same + seq![x] + a;
    let q = same + seq![y] + b;
    if same.len() > 0 {
        let rest = same.drop_first();
        first_difference_decides(rest, x, a, y, b);
        assert(p[0] == same[0] && q[0] == same[0]);
        assert(p.drop_first() =~= rest + seq![x] + a);
        assert(q.drop_first() =~= rest + seq![y] + b);
    } else {
        assert(p[0] == x && q[0] == y);
    }
}

/// Pieces are put together one after the other, with the separator in front of
/// each but the first.
pub proof fn pieces_are_joined_in_order(parts: Seq<Seq<char>>, next: Seq<char>, sep: Seq<char>)
    ensures
        joined(seq![next], sep) == next,
        parts.len() > 0 ==> joined(parts.push(next), sep) == joined(parts, sep) + sep + next,
{
    assert(parts.push(next).drop_last() =~= parts);
}

/// The upper-case form of an ASCII text has a letter for each letter, and all else
/// as it was.
pub proof fn upper_case_changes_letters_alone(s: Seq<char>, i: int)
    requires
        0 <= i < s.len(),
    ensures
        ascii_uppercase(s).len() == s.len(),
        97 <= s[i] as u32 <= 122 ==> ascii_uppercase(s)[i] as u32 == s[i] as u32 - 32,
        !(97 <= s[i] as u32 <= 122) ==> ascii_uppercase(s)[i] == s[i],
{
}

/// The texts of strings stand in the order of the strings.
pub proof fn texts_stand_in_order(v: Seq<String>, i: int)
    ensures
        texts(v).len() == v.len(),
        0 <= i < v.len() ==> texts(v)[i] == v[i]@,
{
}

} // verus!

//! Lines and payloads out of a stream of bytes.
//!
//! A line ends with a line feed, before which a carriage return does not count.
//! A payload is as long as it was announced, whatever bytes it holds; what
//! follows it up to the end of that line is passed over.
use crate::broker::push_bytes;
use vstd::prelude::*;

verus! {

// ── Models ────────────────────────────────────────────────────────────────────

/// Line feed.
pub const LF: u8 = 10;

/// Carriage return.
pub const CR: u8 = 13;

/// Position of the first line feed, or the number of bytes when there is none.
pub open spec fn first_end(b: Seq<u8>) -> nat
    decreases b.len(),
{
    if b.len() == 0 {
        0
    } else if b[0] == LF {
        0
    } else {
        1 + first_end(b.drop_first())
    }
}

/// The bytes begin with a whole line.
pub open spec fn has_line(b: Seq<u8>) -> bool {
    first_end(b) < b.len()
}

/// A line without the carriage return at its end.
pub open spec fn without_return(line: Seq<u8>) -> Seq<u8> {
    if line.len() > 0 && line.last() == CR {
        line.drop_last()
    } else {
        line
    }
}

/// The first line, without its end.
pub open spec fn first_line(b: Seq<u8>) -> Seq<u8> {
    without_return(b.take(first_end(b) as int))
}

/// What follows the first line.
pub open spec fn after_line(b: Seq<u8>) -> Seq<u8> {
    b.skip(first_end(b) as int + 1)
}

/// The bytes begin with a whole payload of `len` bytes and the end of its line.
pub open spec fn has_payload(b: Seq<u8>, len: nat) -> bool {
    len <= b.len() && has_line(b.skip(len as int))
}

/// What follows a payload of `len` bytes and the end of its line.
pub open spec fn after_payload(b: Seq<u8>, len: nat) -> Seq<u8> {
    after_line(b.skip(len as int))
}

/// The text that bytes encode, where they are UTF-8.
pub open spec fn text_of(b: Seq<u8>) -> Option<Seq<char>> {
    if vstd::utf8::valid_utf8(b) {
        Some(vstd::utf8::decode_utf8(b))
    } else {
        None
    }
}

// ── Trusted: std's strings ────────────────────────────────────────────────────

/// `String::from_utf8` takes exactly the bytes that are well-formed UTF-8, and
/// gives the text that they encode.
#[verifier::external_body]
pub(crate) fn read_text(bytes: Vec<u8>) -> (r: Option<String>)
    ensures
        r is Some <==> vstd::utf8::valid_utf8(bytes@),
        r matches Some(s) ==> s@ == vstd::utf8::decode_utf8(bytes@),
{
    String::from_utf8(bytes).ok()
}

// ── What has come in ──────────────────────────────────────────────────────────

/// The bytes that have come in and were not read yet.
#[derive(Debug)]
pub struct Inbox {
    pub bytes: Vec<u8>,
}

impl View for Inbox {
    type V = Seq<u8>;

    open spec fn view(&self) -> Seq<u8> {
        self.bytes@
    }
}

/// Position of the first line feed from `from` on, or the number of bytes.
fn find_end(bytes: &Vec<u8>, from: usize) -> (r: usize)
    requires
        from <= bytes@.len(),
    ensures
        r == from + first_end(bytes@.skip(from as int)),
        from <= r <= bytes@.len(),
{
    let ghost rest = bytes@.skip(from as int);
    let mut i: usize = from;
    while i < bytes.len() && bytes[i] != LF
        invariant
            from <= i <= bytes@.len(),
            rest == bytes@.skip(from as int),
            forall|j: int| 0 <= j < i - from ==> #[trigger] rest[j] != LF,
        decreases bytes@.len() - i,
    {
        proof {
            assert(rest[i - from] == bytes@[i as int]);
        }
        i = i + 1;
    }
    proof {
        if i < bytes@.len() {
            assert(rest[i - from] == bytes@[i as int]);
        }
        lemma_end_at(rest, i - from);
    }
    i
}

/// The bytes from `from` up to `to`.
fn copy_range(bytes: &Vec<u8>, from: usize, to: usize) -> (r: Vec<u8>)
    requires
        from <= to <= bytes@.len(),
    ensures
        r@ == bytes@.subrange(from as int, to as int),
{
    let mut r: Vec<u8> = Vec::with_capacity(to - from);
    let mut i: usize = from;
    while i < to
        invariant
            from <= i <= to <= bytes@.len(),
            r@ == bytes@.subrange(from as int, i as int),
        decreases to - i,
    {
        r.push(bytes[i]);
        i = i + 1;
    }
    r
}

impl Inbox {
    /// Nothing has come in.
    pub fn new() -> (i: Inbox)
        ensures
            i@ == Seq::<u8>::empty(),
    {
        Inbox { bytes: Vec::new() }
    }

    /// More has come in.
    pub fn receive(&mut self, input: &[u8])
        ensures
            final(self)@ == old(self)@ + input@,
    {
        push_bytes(&mut self.bytes, input);
    }

    /// Takes out the first line, once it is whole.
    pub fn take_line(&mut self) -> (r: Option<Vec<u8>>)
        ensures
            r is Some <==> has_line(old(self)@),
            r matches Some(line) ==> line@ == first_line(old(self)@) && final(self)@ == after_line(
                old(self)@,
            ),
            r is None ==> final(self)@ == old(self)@,
    {
        let ghost b = self.bytes@;
        proof {
            assert(b.skip(0) =~= b);
        }
        let end: usize = find_end(&self.bytes, 0);
        let n: usize = self.bytes.len();
        if end >= n {
            return None;
        }
        let stop: usize = if end > 0 && self.bytes[end - 1] == CR {
            end - 1
        } else {
            end
        };
        let line = copy_range(&self.bytes, 0, stop);
        self.bytes = copy_range(&self.bytes, end + 1, n);
        proof {
            assert(line@ =~= first_line(b));
            assert(self.bytes@ =~= after_line(b));
        }
        Some(line)
    }

    /// Takes out a payload of `len` bytes and the end of its line, once both are
    /// there.
    pub fn take_payload(&mut self, len: usize) -> (r: Option<Vec<u8>>)
        ensures
            r is Some <==> has_payload(old(self)@, len as nat),
            r matches Some(p) ==> p@ == old(self)@.take(len as int) && final(self)@
                == after_payload(old(self)@, len as nat),
            r is None ==> final(self)@ == old(self)@,
    {
        let ghost b = self.bytes@;
        let n: usize = self.bytes.len();
        if n < len {
            return None;
        }
        let end: usize = find_end(&self.bytes, len);
        if end >= n {
            return None;
        }
        let payload = copy_range(&self.bytes, 0, len);
        self.bytes = copy_range(&self.bytes, end + 1, n);
        proof {
            assert(payload@ =~= b.take(len as int));
            assert(self.bytes@ =~= after_payload(b, len as nat));
        }
        Some(payload)
    }

    /// Takes out everything, or at most the first `len` bytes of it and drops
    /// the rest.
    pub fn take_rest(&mut self, len: Option<usize>) -> (r: Vec<u8>)
        ensures
            final(self)@ == Seq::<u8>::empty(),
            r@ == match len {
                Some(n) => at_most(old(self)@, n as nat),
                None => old(self)@,
            },
    {
        let ghost b = self.bytes@;
        let n: usize = self.bytes.len();
        let stop: usize = match len {
            Some(k) => if k < n {
                k
            } else {
                n
            },
            None => n,
        };
        let rest = copy_range(&self.bytes, 0, stop);
        self.bytes = Vec::new();
        proof {
            assert(b.subrange(0, n as int) =~= b);
            assert(rest@ =~= b.take(stop as int));
        }
        rest
    }
}

/// The first `n` bytes, or all of them where there are fewer.
pub open spec fn at_most(b: Seq<u8>, n: nat) -> Seq<u8> {
    if n < b.len() {
        b.take(n as int)
    } else {
        b
    }
}

// ── Laws ──────────────────────────────────────────────────────────────────────

/// `first_end` gives the position `i` when a line feed stands there and not
/// before.
proof fn lemma_end_at(b: Seq<u8>, i: int)
    requires
        0 <= i <= b.len(),
        forall|j: int| 0 <= j < i ==> #[trigger] b[j] != LF,
        i < b.len() ==> b[i] == LF,
    ensures
        first_end(b) == i,
    decreases b.len(),
{
    if i > 0 {
        let rest = b.drop_first();
        assert forall|j: int| 0 <= j < i - 1 implies #[trigger] rest[j] != LF by {
            assert(rest[j] == b[j + 1]);
        }
        lemma_end_at(rest, i - 1);
    }
}

proof fn lemma_end_is_first(b: Seq<u8>)
    ensures
        first_end(b) <= b.len(),
        first_end(b) < b.len() ==> b[first_end(b) as int] == LF,
        forall|j: int| 0 <= j < first_end(b) ==> #[trigger] b[j] != LF,
    decreases b.len(),
{
    if b.len() > 0 && b[0] != LF {
        let rest = b.drop_first();
        lemma_end_is_first(rest);
        assert forall|j: int| 0 <= j < first_end(b) implies #[trigger] b[j] != LF by {
            if j > 0 {
                assert(rest[j - 1] == b[j]);
            }
        }
    }
}

/// What comes in later changes nothing about a line that is whole.
pub proof fn whole_lines_stay(b: Seq<u8>, more: Seq<u8>)
    requires
        has_line(b),
    ensures
        has_line(b + more),
        first_line(b + more) == first_line(b),
        after_line(b + more) == after_line(b) + more,
{
    lemma_end_is_first(b);
    let i = first_end(b) as int;
    assert forall|j: int| 0 <= j < i implies #[trigger] (b + more)[j] != LF by {
        assert((b + more)[j] == b[j]);
    }
    lemma_end_at(b + more, i);
    assert((b + more).take(i) =~= b.take(i));
    assert((b + more).skip(i + 1) =~= b.skip(i + 1) + more);
}

/// What comes in later changes nothing about a payload that is whole.
pub proof fn whole_payloads_stay(b: Seq<u8>, len: nat, more: Seq<u8>)
    requires
        has_payload(b, len),
    ensures
        has_payload(b + more, len),
        (b + more).take(len as int) == b.take(len as int),
        after_payload(b + more, len) == after_payload(b, len) + more,
{
    let n = len as int;
    assert((b + more).skip(n) =~= b.skip(n) + more);
    assert((b + more).take(n) =~= b.take(n));
    whole_lines_stay(b.skip(n), more);
}

/// A line that was written with its end is read back as it was, where it holds
/// no line feed.
pub proof fn lines_are_read_back(line: Seq<u8>, rest: Seq<u8>)
    requires
        forall|j: int| 0 <= j < line.len() ==> #[trigger] line[j] != LF,
    ensures
        has_line(line + seq![CR, LF] + rest),
        first_line(line + seq![CR, LF] + rest) == line,
        after_line(line + seq![CR, LF] + rest) == rest,
{
    let b = line + seq![CR, LF] + rest;
    let n = line.len() as int;
    assert forall|j: int| 0 <= j < n + 1 implies #[trigger] b[j] != LF by {
        if j < n {
            assert(b[j] == line[j]);
        }
    }
    lemma_end_at(b, n + 1);
    assert(b.take(n + 1) =~= line.push(CR));
    assert(line.push(CR).drop_last() =~= line);
    assert(b.skip(n + 2) =~= rest);
}

/// A payload that was written with the end of its line is read back as it was,
/// whatever bytes it holds.
pub proof fn payloads_are_read_back(payload: Seq<u8>, rest: Seq<u8>)
    ensures
        has_payload(payload + seq![CR, LF] + rest, payload.len()),
        (payload + seq![CR, LF] + rest).take(payload.len() as int) == payload,
        after_payload(payload + seq![CR, LF] + rest, payload.len()) == rest,
{
    let b = payload + seq![CR, LF] + rest;
    let n = payload.len() as int;
    let none = Seq::<u8>::empty();
    assert(b.take(n) =~= payload);
    assert(b.skip(n) =~= none + seq![CR, LF] + rest);
    lines_are_read_back(none, rest);
}

/// The bytes of two texts put together are the bytes of each.
pub proof fn encoding_joins(a: Seq<char>, b: Seq<char>)
    ensures
        vstd::utf8::encode_utf8(a + b) == vstd::utf8::encode_utf8(a) + vstd::utf8::encode_utf8(b),
    decreases a.len(),
{
    if a.len() == 0 {
        assert(a + b =~= b);
        assert(vstd::utf8::encode_utf8(a) + vstd::utf8::encode_utf8(b)
            =~= vstd::utf8::encode_utf8(b));
    } else {
        let first = vstd::utf8::encode_scalar(a[0] as u32);
        encoding_joins(a.drop_first(), b);
        assert((a + b).drop_first() =~= a.drop_first() + b);
        assert(first + vstd::utf8::encode_utf8(a.drop_first()) + vstd::utf8::encode_utf8(b)
            =~= first + (vstd::utf8::encode_utf8(a.drop_first()) + vstd::utf8::encode_utf8(b)));
    }
}

proof fn lemma_scalar_has_no_lf(c: u32)
    requires
        c != 10,
    ensures
        forall|j: int|
            0 <= j < vstd::utf8::encode_scalar(c).len() ==> #[trigger] vstd::utf8::encode_scalar(
                c,
            )[j] != LF,
{
    assert(vstd::utf8::has_width_1_encoding(c) ==> (c & 0x7F) as u8 != 10u8) by (bit_vector)
        requires
            c != 10,
    ;
    assert(0xC0 | ((c >> 6) & 0x1F) as u8 != 10u8) by (bit_vector);
    assert(0xE0 | ((c >> 12) & 0x0F) as u8 != 10u8) by (bit_vector);
    assert(0xF0 | ((c >> 18) & 0x7) as u8 != 10u8) by (bit_vector);
    assert(0x80 | (c & 0x3F) as u8 != 10u8) by (bit_vector);
    assert(0x80 | ((c >> 6) & 0x3F) as u8 != 10u8) by (bit_vector);
    assert(0x80 | ((c >> 12) & 0x3F) as u8 != 10u8) by (bit_vector);
}

/// The bytes of a text without line feeds hold none.
pub proof fn text_without_line_feeds(s: Seq<char>)
    requires
        !s.contains('\n'),
    ensures
        forall|j: int|
            0 <= j < vstd::utf8::encode_utf8(s).len() ==> #[trigger] vstd::utf8::encode_utf8(s)[j]
                != LF,
    decreases s.len(),
{
    if s.len() > 0 {
        let first = vstd::utf8::encode_scalar(s[0] as u32);
        let rest = s.drop_first();
        let c0: char = s[0];
        assert(s.contains(c0));
        vstd::utf8::char_is_scalar(c0);
        assert(c0 as u32 != 10) by {
            vstd::utf8::char_u32_cast(c0, c0 as u32);
        }
        assert forall|c: char| rest.contains(c) implies s.contains(c) by {
            assert(s[rest.index_of(c) + 1] == c);
        }
        assert(!rest.contains('\n'));
        text_without_line_feeds(rest);
        lemma_scalar_has_no_lf(c0 as u32);
        let all = vstd::utf8::encode_utf8(s);
        assert forall|j: int| 0 <= j < all.len() implies #[trigger] all[j] != LF by {
            if j < first.len() {
                assert(all[j] == first[j]);
            } else {
                assert(all[j] == vstd::utf8::encode_utf8(rest)[j - first.len()]);
            }
        }
    }
}

/// The bytes of the end of a line.
pub proof fn encoded_line_end()
    ensures
        vstd::utf8::encode_utf8("\r\n"@) == seq![CR, LF],
{
    reveal_strlit("\r\n");
    let s = "\r\n"@;
    assert(vstd::utf8::is_ascii_chars(s));
    vstd::utf8::is_ascii_chars_encode_utf8(s);
    assert(s[0] == '\r' && s[1] == '\n');
    assert(vstd::utf8::encode_utf8(s) =~= seq![CR, LF]);
}

/// A text that was written as a line is read back as it was, where it holds no
/// line feed, and what follows stays.
pub proof fn text_lines_are_read_back(text: Seq<char>, rest: Seq<u8>)
    requires
        !text.contains('\n'),
    ensures
        ({
            let b = vstd::utf8::encode_utf8(text + "\r\n"@) + rest;
            &&& has_line(b)
            &&& text_of(first_line(b)) == Some(text)
            &&& after_line(b) == rest
        }),
{
    encoding_joins(text, "\r\n"@);
    encoded_line_end();
    text_without_line_feeds(text);
    lines_are_read_back(vstd::utf8::encode_utf8(text), rest);
    vstd::utf8::encode_utf8_valid_utf8(text);
    vstd::utf8::encode_utf8_decode_utf8(text);
}

/// A line may end with a line feed alone.
pub proof fn bare_lines_are_read_back(line: Seq<u8>)
    requires
        !line.contains(10u8),
        line.len() > 0 ==> line.last() != 13u8,
    ensures
        has_line(line + seq![10u8]),
        first_line(line + seq![10u8]) == line,
        after_line(line + seq![10u8]).len() == 0,
        !has_line(line),
{
    let b = line + seq![10u8];
    let n = line.len() as int;
    assert forall|j: int| 0 <= j < n implies #[trigger] line[j] != LF by {
        assert(line.contains(line[j]));
    }
    assert forall|j: int| 0 <= j < n implies #[trigger] b[j] != LF by {
        assert(b[j] == line[j]);
    }
    lemma_end_at(b, n);
    lemma_end_at(line, n);
    assert(b.take(n) =~= line);
}

/// Of bytes that are more than wanted the first ones are taken, and of fewer all.
pub proof fn no_more_than_wanted(b: Seq<u8>, n: nat)
    ensures
        at_most(b, n).len() <= n,
        at_most(b, n).len() == n || at_most(b, n) == b,
        forall|i: int| 0 <= i < at_most(b, n).len() ==> #[trigger] at_most(b, n)[i] == b[i],
{
}

} // verus!

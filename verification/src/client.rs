//! The HTTP client that task methods use: how a call becomes a request, and what
//! is kept of its outcome.
use crate::http::make_request;
use crate::http::ContentType;
use crate::http::HttpRequest;
use crate::map::StringMap;
use crate::plan::HttpMethod;
use crate::response::RustResponse;
use crate::text::join;
use crate::text::starts_with;
use crate::text::trim_end_matches;
use vstd::prelude::*;

verus! {

// ── Addresses ─────────────────────────────────────────────────────────────────

/// The address of `path` below `base`, with one slash in between.
pub open spec fn url_of(base: Seq<char>, path: Seq<char>) -> Seq<char> {
    crate::text::without_tail(base, '/') + (if crate::text::begins_with(path, "/"@) {
        path
    } else {
        "/"@ + path
    })
}

/// The address of `path` below `base`.
pub fn build_url(base: &str, path: &str) -> (url: String)
    ensures
        url@ == url_of(base@, path@),
{
    let mut url = trim_end_matches(base, '/');
    let ghost start = url@;
    if !starts_with(path, "/") {
        url.append("/");
    }
    url.append(path);
    proof {
        assert(url@ =~= url_of(base@, path@));
    }
    url
}

// ── Form encoding ─────────────────────────────────────────────────────────────

/// Characters that a form leaves as they are.
pub open spec fn is_unreserved(c: char) -> bool {
    ||| 'a' <= c <= 'z'
    ||| 'A' <= c <= 'Z'
    ||| '0' <= c <= '9'
    ||| c == '-'
    ||| c == '_'
    ||| c == '.'
    ||| c == '~'
}

/// The upper-case hexadecimal digit for `d`, where `d` is below sixteen.
pub open spec fn hex_digit(d: nat) -> char {
    if d < 10 {
        (d + 48) as char
    } else {
        (d + 55) as char
    }
}

/// A byte as a form writes it: as it is, or as its two hexadecimal digits.
pub open spec fn encoded_byte(b: u8) -> Seq<char> {
    if is_unreserved(b as char) {
        seq![b as char]
    } else {
        seq!['%', hex_digit(b as nat / 16), hex_digit(b as nat % 16)]
    }
}

/// Bytes as a form writes them.
pub open spec fn encoded_bytes(bytes: Seq<u8>) -> Seq<char>
    decreases bytes.len(),
{
    if bytes.len() == 0 {
        seq![]
    } else {
        encoded_byte(bytes[0]) + encoded_bytes(bytes.drop_first())
    }
}

/// A text as a form writes it: byte by byte of its UTF-8 form.
pub open spec fn encoded(s: Seq<char>) -> Seq<char> {
    encoded_bytes(vstd::utf8::encode_utf8(s))
}

/// The upper-case hexadecimal digit for `d`.
fn digit_char(d: u8) -> (c: char)
    requires
        d < 16,
    ensures
        c == hex_digit(d as nat),
{
    if d < 10 {
        (d + 48u8) as char
    } else {
        (d + 55u8) as char
    }
}

/// A text as a form writes it.
pub fn urlencoded_str(s: &str) -> (r: String)
    ensures
        r@ == encoded(s@),
{
    let bytes = s.as_bytes();
    let mut r = String::new();
    let mut i: usize = 0;
    proof {
        assert(bytes@.skip(0) =~= bytes@);
        assert(r@ + encoded_bytes(bytes@) =~= encoded_bytes(bytes@));
    }
    while i < bytes.len()
        invariant
            bytes@ == vstd::utf8::encode_utf8(s@),
            i <= bytes@.len(),
            r@ + encoded_bytes(bytes@.skip(i as int)) == encoded(s@),
        decreases bytes@.len() - i,
    {
        let b: u8 = bytes[i];
        let c: char = b as char;
        let ghost before = r@;
        let ghost rest = encoded_bytes(bytes@.skip(i + 1));
        proof {
            assert(bytes@.skip(i as int)[0] == b);
            assert(bytes@.skip(i as int).drop_first() =~= bytes@.skip(i + 1));
        }
        if ('a' <= c && c <= 'z') || ('A' <= c && c <= 'Z') || ('0' <= c && c <= '9') || c == '-' || c
            == '_' || c == '.' || c == '~' {
            r.push(c);
        } else {
            r.push('%');
            r.push(digit_char(b / 16));
            r.push(digit_char(b % 16));
        }
        proof {
            assert(r@ =~= before + encoded_byte(b));
            assert(r@ + rest =~= before + (encoded_byte(b) + rest));
        }
        i = i + 1;
    }
    proof {
        assert(r@ + encoded_bytes(bytes@.skip(i as int)) =~= r@);
    }
    r
}

/// Text that a form leaves as it is comes out unchanged.
pub proof fn unreserved_text_is_kept(s: Seq<char>)
    requires
        forall|i: int| 0 <= i < s.len() ==> is_unreserved(#[trigger] s[i]),
    ensures
        encoded(s) == s,
    decreases s.len(),
{
    if s.len() > 0 {
        let rest = s.drop_first();
        let first = seq![s[0]];
        assert forall|i: int| 0 <= i < rest.len() implies is_unreserved(#[trigger] rest[i]) by {
            assert(s[i + 1] == rest[i]);
        }
        unreserved_text_is_kept(rest);
        assert(is_unreserved(s[0]));
        assert(vstd::utf8::is_ascii_chars(first));
        vstd::utf8::is_ascii_chars_encode_utf8(first);
        crate::framing::encoding_joins(first, rest);
        assert(s =~= first + rest);
        let bytes = vstd::utf8::encode_utf8(s);
        let b = vstd::utf8::encode_utf8(first)[0];
        assert(first[0] as u8 == b);
        assert(bytes[0] == b);
        assert(b as char == s[0]);
        assert(bytes.drop_first() =~= vstd::utf8::encode_utf8(rest));
        assert(encoded_byte(b) =~= first);
    }
}

proof fn lemma_hex_digits_differ(a: nat, b: nat)
    requires
        a < 16,
        b < 16,
        hex_digit(a) == hex_digit(b),
    ensures
        a == b,
{
}

proof fn lemma_bytes_can_be_told_apart(a: Seq<u8>, b: Seq<u8>)
    requires
        encoded_bytes(a) == encoded_bytes(b),
    ensures
        a == b,
    decreases a.len(),
{
    let x = encoded_bytes(a);
    let y = encoded_bytes(b);
    if a.len() == 0 || b.len() == 0 {
        assert(a.len() > 0 ==> x.len() > 0);
        assert(b.len() > 0 ==> y.len() > 0);
        assert(a =~= b);
    } else {
        let p = encoded_byte(a[0]);
        let q = encoded_byte(b[0]);
        assert(x[0] == p[0] && y[0] == q[0]);
        if is_unreserved(a[0] as char) {
            assert(!is_unreserved('%'));
            assert(is_unreserved(b[0] as char));
        } else {
            assert(!is_unreserved(b[0] as char));
            assert(x[1] == p[1] && y[1] == q[1] && x[2] == p[2] && y[2] == q[2]);
            lemma_hex_digits_differ(a[0] as nat / 16, b[0] as nat / 16);
            lemma_hex_digits_differ(a[0] as nat % 16, b[0] as nat % 16);
        }
        assert(a[0] == b[0]);
        let n = p.len() as int;
        assert(x.skip(n) =~= encoded_bytes(a.drop_first()));
        assert(y.skip(n) =~= encoded_bytes(b.drop_first()));
        lemma_bytes_can_be_told_apart(a.drop_first(), b.drop_first());
        assert(a =~= seq![a[0]] + a.drop_first());
        assert(b =~= seq![b[0]] + b.drop_first());
    }
}

/// Nothing of a text is lost in a form: different texts are written differently.
pub proof fn forms_tell_texts_apart(a: Seq<char>, b: Seq<char>)
    requires
        encoded(a) == encoded(b),
    ensures
        a == b,
{
    lemma_bytes_can_be_told_apart(vstd::utf8::encode_utf8(a), vstd::utf8::encode_utf8(b));
    vstd::utf8::encode_utf8_decode_utf8(a);
    vstd::utf8::encode_utf8_decode_utf8(b);
}

// ── Options of a call ─────────────────────────────────────────────────────────

/// The data of a form.
#[derive(Debug)]
pub enum FormData {
    /// Names and values.
    Fields { fields: Vec<(String, String)> },
    /// A text that is sent as it is.
    Text { text: String },
}

/// The options of a call.
#[derive(Debug)]
pub struct CallOptions {
    pub headers: StringMap<String>,
    /// The body as JSON text.
    pub json: Option<String>,
    pub data: Option<FormData>,
}

/// A field as a form writes it.
pub open spec fn encoded_field(f: (String, String)) -> Seq<char> {
    encoded(f.0@) + "="@ + encoded(f.1@)
}

/// A form's fields as they are sent.
pub open spec fn form_text(fields: Seq<(String, String)>) -> Seq<char> {
    crate::text::joined(fields.map_values(|f: (String, String)| encoded_field(f)), "&"@)
}

/// The body of a call: its JSON, or else its form data.
pub open spec fn body_of(o: CallOptions) -> Option<Seq<char>> {
    match o.json {
        Some(j) => Some(j@),
        None => match o.data {
            Some(FormData::Fields { fields }) => Some(form_text(fields@)),
            Some(FormData::Text { text }) => Some(text@),
            None => None,
        },
    }
}

/// What the body of a call is.
pub open spec fn kind_of(o: CallOptions) -> ContentType {
    if o.json is None && o.data is Some {
        ContentType::Form
    } else {
        ContentType::Json
    }
}

/// A form's fields as they are sent.
pub fn encode_fields(fields: &Vec<(String, String)>) -> (r: String)
    ensures
        r@ == form_text(fields@),
{
    let mut parts: Vec<String> = Vec::new();
    let mut i: usize = 0;
    let ghost want = fields@.map_values(|f: (String, String)| encoded_field(f));
    while i < fields.len()
        invariant
            want == fields@.map_values(|f: (String, String)| encoded_field(f)),
            i <= fields@.len(),
            parts@.len() == i,
            forall|j: int| 0 <= j < i ==> (#[trigger] parts@[j])@ == want[j],
        decreases fields@.len() - i,
    {
        let mut part = urlencoded_str(fields[i].0.as_str());
        part.append("=");
        let value = urlencoded_str(fields[i].1.as_str());
        part.append(value.as_str());
        parts.push(part);
        i = i + 1;
    }
    proof {
        assert(crate::text::texts(parts@) =~= want);
    }
    join(&parts, "&")
}

/// The request of a call. JSON goes before form data, and the type of the body
/// is stated.
pub fn call_request(method: HttpMethod, base: &str, path: &str, options: &CallOptions) -> (r:
    HttpRequest)
    ensures
        r.method == method,
        r.url@ == url_of(base@, path@),
        crate::plan::text_option(r.body) == body_of(*options),
        crate::http::is_header_list(r.headers@, options.headers, r.body, kind_of(*options)),
{
    let url = build_url(base, path);
    match &options.json {
        Some(j) => make_request(method, url, &options.headers, Some(j.clone()), ContentType::Json),
        None => match &options.data {
            Some(FormData::Fields { fields }) => {
                let body = encode_fields(fields);
                make_request(method, url, &options.headers, Some(body), ContentType::Form)
            },
            Some(FormData::Text { text }) => make_request(
                method,
                url,
                &options.headers,
                Some(text.clone()),
                ContentType::Form,
            ),
            None => make_request(method, url, &options.headers, None, ContentType::Json),
        },
    }
}

// ── Batches ───────────────────────────────────────────────────────────────────

/// One item of a batch, as far as it could be read: each part holds what was
/// found there, or the error of reading it.
#[derive(Debug)]
pub enum BatchItem {
    /// The item is no dictionary.
    Unreadable { error: String },
    Dict {
        method: Result<Option<String>, String>,
        path: Result<Option<String>, String>,
        options: Result<CallOptions, String>,
    },
}

/// The upper-case name of the method of an item, given what upper case makes of
/// a name: GET where the item names none.
pub open spec fn item_method(method: Option<String>) -> Seq<char> {
    match method {
        Some(m) => crate::text::uppercase(m@),
        None => "GET"@,
    }
}

/// Upper case makes of an ASCII name of a method the same name in upper case.
pub open spec fn ascii_method(item: BatchItem) -> bool {
    item matches BatchItem::Dict { method: Ok(Some(m)), .. } ==> crate::text::is_ascii(m@)
        ==> crate::text::uppercase(m@) == crate::text::ascii_uppercase(m@)
}

/// The error of an item: of its parts the first that is wrong.
pub open spec fn item_error(item: BatchItem) -> Option<Seq<char>> {
    match item {
        BatchItem::Unreadable { error } => Some(error@),
        BatchItem::Dict { method, path, options } => match method {
            Err(e) => Some(e@),
            Ok(m) => if crate::plan::method_named(item_method(m)) is None {
                Some("Unknown HTTP method: "@ + item_method(m))
            } else {
                match path {
                    Err(e) => Some(e@),
                    Ok(None) => Some("batch item missing 'path'"@),
                    Ok(Some(_)) => match options {
                        Err(e) => Some(e@),
                        Ok(_) => None,
                    },
                }
            },
        },
    }
}

/// `r` is the request of an item without errors.
pub open spec fn is_item_request(r: HttpRequest, item: BatchItem, base: Seq<char>) -> bool {
    match item {
        BatchItem::Dict { method: Ok(m), path: Ok(Some(p)), options: Ok(o) } => {
            &&& crate::plan::method_named(item_method(m)) == Some(r.method)
            &&& r.url@ == url_of(base, p@)
            &&& crate::plan::text_option(r.body) == body_of(o)
            &&& crate::http::is_header_list(r.headers@, o.headers, r.body, kind_of(o))
        },
        _ => false,
    }
}

/// The method of an item: GET where it names none.
fn method_of(method: &Option<String>) -> (r: Result<HttpMethod, String>)
    ensures
        r is Ok <==> crate::plan::method_named(item_method(*method)) is Some,
        r matches Ok(m) ==> crate::plan::method_named(item_method(*method)) == Some(m),
        r matches Err(e) ==> e@ == "Unknown HTTP method: "@ + item_method(*method),
        method matches Some(m) ==> crate::text::is_ascii(m@) ==> crate::text::uppercase(m@)
            == crate::text::ascii_uppercase(m@),
{
    match method {
        Some(m) => HttpMethod::parse(m.as_str()),
        None => Ok(HttpMethod::Get),
    }
}

/// The request of an item, or its error.
pub fn item_request(item: &BatchItem, base: &str) -> (r: Result<HttpRequest, String>)
    ensures
        r is Ok <==> item_error(*item) is None,
        r matches Ok(q) ==> is_item_request(q, *item, base@),
        r matches Err(e) ==> item_error(*item) == Some(e@),
        ascii_method(*item),
{
    match item {
        BatchItem::Unreadable { error } => Err(error.clone()),
        BatchItem::Dict { method, path, options } => {
            let m = match method {
                Err(e) => {
                    return Err(e.clone());
                },
                Ok(m) => m,
            };
            let http_method = match method_of(m) {
                Err(e) => {
                    return Err(e);
                },
                Ok(h) => h,
            };
            match path {
                Err(e) => Err(e.clone()),
                Ok(None) => Err("batch item missing 'path'".to_string()),
                Ok(Some(p)) => match options {
                    Err(e) => Err(e.clone()),
                    Ok(o) => Ok(call_request(http_method, base, p.as_str(), o)),
                },
            }
        },
    }
}

/// The first error among the items.
pub open spec fn first_error(items: Seq<BatchItem>) -> Option<Seq<char>>
    decreases items.len(),
{
    if items.len() == 0 {
        None
    } else {
        match item_error(items[0]) {
            Some(e) => Some(e),
            None => first_error(items.drop_first()),
        }
    }
}

/// The requests of a batch, in order. One item that is wrong refuses the whole
/// batch, before anything is sent.
pub fn batch_requests(items: &Vec<BatchItem>, base: &str) -> (r: Result<Vec<HttpRequest>, String>)
    ensures
        r is Ok <==> first_error(items@) is None,
        r matches Ok(qs) ==> qs@.len() == items@.len() && forall|i: int|
            0 <= i < qs@.len() ==> is_item_request(#[trigger] qs@[i], items@[i], base@)
                && ascii_method(items@[i]),
        r matches Err(e) ==> first_error(items@) == Some(e@),
{
    let mut qs: Vec<HttpRequest> = Vec::new();
    let mut i: usize = 0;
    proof {
        assert(items@.skip(0) =~= items@);
    }
    while i < items.len()
        invariant
            i <= items@.len(),
            qs@.len() == i,
            forall|j: int|
                0 <= j < i ==> is_item_request(#[trigger] qs@[j], items@[j], base@) && ascii_method(
                    items@[j],
                ),
            first_error(items@) == first_error(items@.skip(i as int)),
        decreases items@.len() - i,
    {
        proof {
            assert(items@.skip(i as int)[0] == items@[i as int]);
            assert(items@.skip(i as int).drop_first() =~= items@.skip(i + 1));
        }
        match item_request(&items[i], base) {
            Ok(q) => {
                qs.push(q);
            },
            Err(e) => {
                return Err(e);
            },
        }
        i = i + 1;
    }
    Ok(qs)
}

// ── Outcomes ──────────────────────────────────────────────────────────────────

/// What a request came to.
#[derive(Debug)]
pub enum HttpOutcome {
    Response { elapsed_ms: u64, response: RustResponse },
    Failure { elapsed_ms: u64, error: String },
}

/// The latency and the status of an outcome: a failure has status 0.
pub open spec fn call_of(o: HttpOutcome) -> (u64, u16) {
    match o {
        HttpOutcome::Response { elapsed_ms, response } => (elapsed_ms, response.status_code),
        HttpOutcome::Failure { elapsed_ms, .. } => (elapsed_ms, 0),
    }
}

/// The calls that a client has made and its last response.
#[derive(Debug)]
pub struct CallLog {
    /// Latency and status of each call, in order.
    pub calls: Vec<(u64, u16)>,
    /// The status of the last response.
    pub last_status: Option<u16>,
    /// Which of the calls brought the last response.
    pub last_response: Option<usize>,
}

/// How many outcomes come before the first failure.
pub open spec fn successes(os: Seq<HttpOutcome>) -> int
    decreases os.len(),
{
    if os.len() == 0 || os[0] is Failure {
        0
    } else {
        1 + successes(os.drop_first())
    }
}

/// The position of the last response among the outcomes, or -1 where there is
/// none.
pub open spec fn last_answer(os: Seq<HttpOutcome>) -> int
    decreases os.len(),
{
    if os.len() == 0 {
        -1
    } else if os.last() is Response {
        os.len() - 1
    } else {
        last_answer(os.drop_last())
    }
}

/// The latencies and statuses of outcomes.
pub open spec fn calls_of(os: Seq<HttpOutcome>) -> Seq<(u64, u16)> {
    os.map_values(|o: HttpOutcome| call_of(o))
}

proof fn lemma_successes(os: Seq<HttpOutcome>)
    ensures
        0 <= successes(os) <= os.len(),
        forall|i: int| 0 <= i < successes(os) ==> #[trigger] os[i] is Response,
        successes(os) < os.len() ==> os[successes(os)] is Failure,
    decreases os.len(),
{
    if os.len() > 0 && os[0] is Response {
        let rest = os.drop_first();
        lemma_successes(rest);
        assert forall|i: int| 0 <= i < successes(os) implies #[trigger] os[i] is Response by {
            if i > 0 {
                assert(rest[i - 1] == os[i]);
            }
        }
        if successes(os) < os.len() {
            assert(rest[successes(rest)] == os[successes(os)]);
        }
    }
}

impl CallLog {
    /// No call has been made.
    pub fn new() -> (l: CallLog)
        ensures
            l.calls@.len() == 0,
            l.last_status is None,
            l.last_response is None,
    {
        CallLog { calls: Vec::new(), last_status: None, last_response: None }
    }

    /// Takes in the outcome of one request.
    pub fn record(&mut self, outcome: HttpOutcome) -> (r: Result<RustResponse, String>)
        ensures
            final(self).calls@ == old(self).calls@.push(call_of(outcome)),
            outcome matches HttpOutcome::Response { response, .. } ==> r == Ok::<
                RustResponse,
                String,
            >(response) && final(self).last_status == Some(response.status_code)
                && final(self).last_response == Some(old(self).calls.len()),
            outcome matches HttpOutcome::Failure { error, .. } ==> r == Err::<RustResponse, String>(
                error,
            ) && final(self).last_status == old(self).last_status && final(self).last_response
                == old(self).last_response,
    {
        match outcome {
            HttpOutcome::Response { elapsed_ms, response } => {
                self.last_response = Some(self.calls.len());
                self.calls.push((elapsed_ms, response.status_code));
                self.last_status = Some(response.status_code);
                Ok(response)
            },
            HttpOutcome::Failure { elapsed_ms, error } => {
                self.calls.push((elapsed_ms, 0));
                Err(error)
            },
        }
    }

    /// Takes in the outcomes of a batch, in the order of its items. Every one of
    /// them is recorded; where some are failures, the error is that of the first.
    pub fn record_batch(&mut self, outcomes: Vec<HttpOutcome>) -> (r: Result<
        Vec<RustResponse>,
        String,
    >)
        ensures
            final(self).calls@ == old(self).calls@ + calls_of(outcomes@),
            r is Ok <==> successes(outcomes@) == outcomes@.len(),
            r matches Ok(rs) ==> rs@.len() == outcomes@.len() && forall|i: int|
                0 <= i < rs@.len() ==> (outcomes@[i] matches HttpOutcome::Response { response, .. }
                    && response == #[trigger] rs@[i]),
            r matches Err(e) ==> (outcomes@[successes(outcomes@)] matches HttpOutcome::Failure {
                error,
                ..
            } && error == e),
            final(self).last_status == if last_answer(outcomes@) < 0 {
                old(self).last_status
            } else {
                Some(call_of(outcomes@[last_answer(outcomes@)]).1)
            },
            final(self).last_response == if last_answer(outcomes@) < 0 {
                old(self).last_response
            } else {
                Some((old(self).calls@.len() + last_answer(outcomes@)) as usize)
            },
    {
        let ghost os = outcomes@;
        let ghost start = self.calls@;
        let ghost first_status = self.last_status;
        let ghost first_response = self.last_response;
        let mut responses: Vec<RustResponse> = Vec::new();
        let mut failed: Option<String> = None;
        let ghost mut k: int = 0;
        proof {
            lemma_successes(os);
            assert(start + calls_of(os.take(0)) =~= start);
        }
        for o in it: outcomes.into_iter()
            invariant
                it.seq() == os,
                k == it.index(),
                0 <= successes(os) <= os.len(),
                forall|i: int| 0 <= i < successes(os) ==> #[trigger] os[i] is Response,
                successes(os) < os.len() ==> os[successes(os)] is Failure,
                failed is Some <==> k > successes(os),
                failed matches Some(e) ==> (os[successes(os)] matches HttpOutcome::Failure {
                    error,
                    ..
                } && error == e),
                failed is None ==> responses@.len() == k && forall|i: int|
                    0 <= i < k ==> (os[i] matches HttpOutcome::Response { response, .. }
                        && response == #[trigger] responses@[i]),
                self.calls@ == start + calls_of(os.take(k)),
                -1 <= last_answer(os.take(k)) < k,
                self.last_status == if last_answer(os.take(k)) < 0 {
                    first_status
                } else {
                    Some(call_of(os[last_answer(os.take(k))]).1)
                },
                self.last_response == if last_answer(os.take(k)) < 0 {
                    first_response
                } else {
                    Some((start.len() + last_answer(os.take(k))) as usize)
                },
                first_response == old(self).last_response,
                start == old(self).calls@,
                first_status == old(self).last_status,
                os == outcomes@,
        {
            proof {
                assert(calls_of(os.take(k + 1)) =~= calls_of(os.take(k)).push(call_of(os[k])));
                assert(start + calls_of(os.take(k + 1)) =~= (start + calls_of(os.take(k))).push(
                    call_of(os[k]),
                ));
                assert(os.take(k + 1).drop_last() =~= os.take(k));
                assert(os.take(k + 1).last() == os[k]);
                assert(o == os[k]);
            }
            match self.record(o) {
                Ok(response) => {
                    responses.push(response);
                },
                Err(e) => {
                    if failed.is_none() {
                        failed = Some(e);
                    }
                },
            }
            proof {
                k = k + 1;
            }
        }
        proof {
            assert(os.take(os.len() as int) =~= os);
        }
        match failed {
            Some(e) => Err(e),
            None => Ok(responses),
        }
    }
}

// ── Order of a batch ──────────────────────────────────────────────────────────

/// The tags are the numbers below `n`, each once.
pub open spec fn are_tags(done: Seq<(usize, HttpOutcome)>, n: nat) -> bool {
    &&& done.len() == n
    &&& forall|i: int| 0 <= i < done.len() ==> (#[trigger] done[i]).0 < n
    &&& forall|i: int, j: int|
        0 <= i < j < done.len() ==> (#[trigger] done[i]).0 != (#[trigger] done[j]).0
}

/// The outcomes in the order of their items, whatever the order in which they
/// finished. Each carries the number of its item.
pub fn in_dispatch_order(done: Vec<(usize, HttpOutcome)>) -> (os: Vec<HttpOutcome>)
    requires
        are_tags(done@, done@.len()),
    ensures
        os@.len() == done@.len(),
        forall|i: int|
            0 <= i < done@.len() ==> os@[(#[trigger] done@[i]).0 as int] == done@[i].1,
{
    let n: usize = done.len();
    let ghost all = done@;
    let mut slots: Vec<Option<HttpOutcome>> = Vec::new();
    let mut i: usize = 0;
    while i < n
        invariant
            i <= n,
            slots@.len() == i,
        decreases n - i,
    {
        slots.push(None);
        i = i + 1;
    }
    let ghost mut k: int = 0;
    for entry in it: done.into_iter()
        invariant
            it.seq() == all,
            k == it.index(),
            all == done@,
            are_tags(all, all.len()),
            slots@.len() == all.len(),
            forall|j: int|
                0 <= j < k ==> slots@[(#[trigger] all[j]).0 as int] == Some(all[j].1),
    {
        let (tag, o) = entry;
        proof {
            assert(entry == all[k]);
            assert forall|j: int| 0 <= j < k implies (#[trigger] all[j]).0 != all[k].0 by {}
        }
        slots.set(tag, Some(o));
        proof {
            k = k + 1;
        }
    }
    proof {
        lemma_all_slots_filled(all, slots@);
    }
    let ghost filled = slots@;
    let mut os: Vec<HttpOutcome> = Vec::new();
    let ghost mut m: int = 0;
    for slot in it: slots.into_iter()
        invariant
            it.seq() == filled,
            m == it.index(),
            filled == slots@,
            os@.len() == m,
            forall|j: int| 0 <= j < filled.len() ==> #[trigger] filled[j] is Some,
            forall|j: int| 0 <= j < m ==> filled[j] == Some(#[trigger] os@[j]),
    {
        proof {
            assert(slot == filled[m]);
        }
        match slot {
            Some(o) => {
                os.push(o);
            },
            None => {},
        }
        proof {
            m = m + 1;
        }
    }
    proof {
        assert forall|i: int| 0 <= i < all.len() implies os@[(#[trigger] all[i]).0 as int]
            == all[i].1 by {
            let t = all[i].0 as int;
            assert(filled[t] == Some(all[i].1));
            assert(filled[t] == Some(os@[t]));
        }
    }
    os
}

proof fn lemma_all_slots_filled(all: Seq<(usize, HttpOutcome)>, slots: Seq<Option<HttpOutcome>>)
    requires
        are_tags(all, all.len()),
        slots.len() == all.len(),
        forall|j: int|
            0 <= j < all.len() ==> slots[(#[trigger] all[j]).0 as int] == Some(all[j].1),
    ensures
        forall|j: int| 0 <= j < slots.len() ==> #[trigger] slots[j] is Some,
{
    let n = all.len() as int;
    let tags = Seq::new(all.len(), |i: int| all[i].0 as int);
    assert(tags.no_duplicates());
    tags.unique_seq_to_set();
    let have = tags.to_set();
    let want = vstd::set_lib::set_int_range(0, n);
    vstd::set_lib::lemma_int_range(0, n);
    assert(have.subset_of(want)) by {
        assert forall|t: int| have.contains(t) implies want.contains(t) by {
            let i = tags.index_of(t);
            assert(tags[i] == t);
            assert(all[i].0 == t);
        }
    }
    vstd::set_lib::lemma_subset_equality(have, want);
    assert forall|j: int| 0 <= j < slots.len() implies #[trigger] slots[j] is Some by {
        assert(want.contains(j));
        assert(have.contains(j));
        let i = tags.index_of(j);
        assert(tags[i] == j);
        assert(slots[all[i].0 as int] == Some(all[i].1));
    }
}

// ── Laws ──────────────────────────────────────────────────────────────────────

/// There is one slash between the base and the path, whether the base ends with
/// slashes and whether the path begins with one or not.
pub proof fn one_slash_in_between(base: Seq<char>, slashes: nat, path: Seq<char>)
    requires
        base.len() > 0 ==> base.last() != '/',
        path.len() > 0 ==> path[0] != '/',
    ensures
        url_of(base + Seq::new(slashes, |i: int| '/'), path) == base + seq!['/'] + path,
        url_of(base + Seq::new(slashes, |i: int| '/'), seq!['/'] + path) == base + seq!['/'] + path,
{
    let b = base + Seq::new(slashes, |i: int| '/');
    reveal_strlit("/");
    assert("/"@ =~= seq!['/']);
    crate::text::tails_are_cut_off(base, '/', slashes);
    if crate::text::begins_with(path, "/"@) {
        assert(path.take(1)[0] == "/"@[0]);
    }
    assert((seq!['/'] + path).take(1) =~= "/"@);
    assert(url_of(b, path) =~= base + seq!['/'] + path);
    assert(url_of(b, seq!['/'] + path) =~= base + seq!['/'] + path);
}

/// The value of an upper-case hexadecimal digit.
pub open spec fn hex_value(c: char) -> int {
    if '0' <= c <= '9' {
        c as u32 - 48
    } else {
        c as u32 - 55
    }
}

/// A form keeps letters, digits and the four marks `-_.~`; every other byte becomes
/// a percent sign and two upper-case hexadecimal digits that stand for it.
pub proof fn bytes_are_escaped(b: u8)
    ensures
        ({
            let e = encoded_byte(b);
            let kept = 48 <= b <= 57 || 65 <= b <= 90 || 97 <= b <= 122 || b == 45 || b == 95 || b
                == 46 || b == 126;
            &&& kept ==> e.len() == 1 && e[0] as u32 == b
            &&& !kept ==> {
                &&& e.len() == 3
                &&& e[0] == '%'
                &&& '0' <= e[1] <= '9' || 'A' <= e[1] <= 'F'
                &&& '0' <= e[2] <= '9' || 'A' <= e[2] <= 'F'
                &&& hex_value(e[1]) * 16 + hex_value(e[2]) == b
            }
        }),
{
}

/// Texts are written one after the other.
pub proof fn encodings_join(a: Seq<char>, b: Seq<char>)
    ensures
        encoded(a + b) == encoded(a) + encoded(b),
{
    crate::framing::encoding_joins(a, b);
    lemma_bytes_join(vstd::utf8::encode_utf8(a), vstd::utf8::encode_utf8(b));
}

proof fn lemma_bytes_join(a: Seq<u8>, b: Seq<u8>)
    ensures
        encoded_bytes(a + b) == encoded_bytes(a) + encoded_bytes(b),
    decreases a.len(),
{
    if a.len() == 0 {
        assert(a + b =~= b);
        assert(encoded_bytes(a) + encoded_bytes(b) =~= encoded_bytes(b));
    } else {
        assert((a + b)[0] == a[0]);
        assert((a + b).drop_first() =~= a.drop_first() + b);
        lemma_bytes_join(a.drop_first(), b);
        assert(encoded_bytes(a + b) =~= encoded_bytes(a) + encoded_bytes(b));
    }
}

/// A form's fields stand in their order, each as its name, an equals sign and its
/// value, with an ampersand in front of each but the first.
pub proof fn fields_stand_in_order(fields: Seq<(String, String)>, f: (String, String))
    ensures
        form_text(seq![f]) == encoded(f.0@) + seq!['='] + encoded(f.1@),
        fields.len() > 0 ==> form_text(fields.push(f)) == form_text(fields) + seq!['&'] + encoded(
            f.0@,
        ) + seq!['='] + encoded(f.1@),
        form_text(seq![]).len() == 0,
{
    reveal_strlit("&");
    reveal_strlit("=");
    assert("&"@ =~= seq!['&']);
    assert("="@ =~= seq!['=']);
    let parts = fields.map_values(|f: (String, String)| encoded_field(f));
    assert(fields.push(f).map_values(|f: (String, String)| encoded_field(f)) =~= parts.push(
        encoded_field(f),
    ));
    assert(seq![f].map_values(|f: (String, String)| encoded_field(f)) =~= seq![encoded_field(f)]);
    let none = Seq::<(String, String)>::empty();
    assert(none.map_values(|f: (String, String)| encoded_field(f)) =~= Seq::<Seq<char>>::empty());
    crate::text::pieces_are_joined_in_order(parts, encoded_field(f), "&"@);
    if fields.len() > 0 {
        assert(form_text(fields.push(f)) =~= form_text(fields) + seq!['&'] + encoded(f.0@) + seq![
            '=',
        ] + encoded(f.1@));
    }
}

/// The body of a call is its JSON where it has any, and else its form data: a text
/// as it is, and fields as a form writes them. Its type is that of a form exactly
/// where the form data is the body.
pub proof fn json_goes_before_forms(o: CallOptions)
    ensures
        o.json is Some ==> body_of(o) == Some(o.json->0@) && kind_of(o) == ContentType::Json,
        o.json is None && o.data is None ==> body_of(o) is None,
        o.json is None && o.data is Some ==> kind_of(o) == ContentType::Form && body_of(o) is Some,
        o.json is None ==> (o.data matches Some(FormData::Text { text }) ==> body_of(o) == Some(
            text@,
        )),
        o.json is None ==> (o.data matches Some(FormData::Fields { fields }) ==> body_of(o) == Some(
            form_text(fields@),
        )),
{
}

/// A batch is refused for the error of its first item that has one, and for no
/// other reason.
pub proof fn first_error_refuses_the_batch(items: Seq<BatchItem>)
    ensures
        first_error(items) is None <==> forall|i: int|
            0 <= i < items.len() ==> item_error(#[trigger] items[i]) is None,
        forall|i: int|
            0 <= i < items.len() && item_error(#[trigger] items[i]) is Some && (forall|j: int|
                0 <= j < i ==> item_error(#[trigger] items[j]) is None) ==> first_error(items)
                == item_error(items[i]),
    decreases items.len(),
{
    if items.len() > 0 {
        let rest = items.drop_first();
        first_error_refuses_the_batch(rest);
        assert forall|i: int| 0 <= i < rest.len() implies #[trigger] rest[i] == items[i + 1] by {}
        if item_error(items[0]) is None {
            if first_error(items) is None {
                assert forall|i: int| 0 <= i < items.len() implies item_error(
                    #[trigger] items[i],
                ) is None by {
                    if i > 0 {
                        assert(item_error(rest[i - 1]) is None);
                    }
                }
            }
            if forall|i: int| 0 <= i < items.len() ==> item_error(#[trigger] items[i]) is None {
                assert forall|i: int| 0 <= i < rest.len() implies item_error(
                    #[trigger] rest[i],
                ) is None by {
                    assert(item_error(items[i + 1]) is None);
                }
            }
            assert forall|i: int|
                0 <= i < items.len() && item_error(#[trigger] items[i]) is Some && (forall|j: int|
                    0 <= j < i ==> item_error(#[trigger] items[j]) is None) implies first_error(
                items,
            ) == item_error(items[i]) by {
                assert(i > 0);
                assert forall|j: int| 0 <= j < i - 1 implies item_error(
                    #[trigger] rest[j],
                ) is None by {
                    assert(item_error(items[j + 1]) is None);
                }
                assert(rest[i - 1] == items[i]);
            }
        }
    }
}

/// What is wrong with an item: that it cannot be read, then its method, then its
/// path, then its options; an item in which nothing is wrong has no error.
pub proof fn items_are_checked_in_order(
    method: Result<Option<String>, String>,
    path: Result<Option<String>, String>,
    options: Result<CallOptions, String>,
    error: String,
)
    ensures
        ({
            let item = BatchItem::Dict { method, path, options };
            let known = method is Ok && crate::plan::method_named(item_method(method->Ok_0)) is Some;
            &&& item_error(BatchItem::Unreadable { error }) == Some(error@)
            &&& method is Err ==> item_error(item) == Some(method->Err_0@)
            &&& method is Ok && !known ==> item_error(item) == Some(
                "Unknown HTTP method: "@ + item_method(method->Ok_0),
            )
            &&& known && path is Err ==> item_error(item) == Some(path->Err_0@)
            &&& known && path is Ok && path->Ok_0 is None ==> item_error(item) == Some(
                "batch item missing 'path'"@,
            )
            &&& known && path is Ok && path->Ok_0 is Some && options is Err ==> item_error(item)
                == Some(options->Err_0@)
            &&& item_error(item) is None <==> known && path is Ok && path->Ok_0 is Some
                && options is Ok
        }),
{
}

/// An item without a method is a GET, and one with a method has that in upper case.
pub proof fn items_name_their_methods(m: String)
    ensures
        item_method(None) == "GET"@,
        item_method(Some(m)) == crate::text::uppercase(m@),
        crate::plan::method_named(item_method(None)) == Some(HttpMethod::Get),
{
}

/// A response counts with its latency and its status, a failure with its latency
/// and the status 0, each at its place.
pub proof fn outcomes_count_at_their_places(os: Seq<HttpOutcome>, i: int)
    requires
        0 <= i < os.len(),
    ensures
        calls_of(os).len() == os.len(),
        os[i] matches HttpOutcome::Response { elapsed_ms, response } ==> calls_of(os)[i] == (
            elapsed_ms,
            response.status_code,
        ),
        os[i] matches HttpOutcome::Failure { elapsed_ms, error } ==> calls_of(os)[i] == (
            elapsed_ms,
            0u16,
        ),
{
}

/// The first failure among the outcomes, and the last response: before the one and
/// after the other there is none of its kind.
pub proof fn failures_and_answers_are_found(os: Seq<HttpOutcome>)
    ensures
        0 <= successes(os) <= os.len(),
        successes(os) < os.len() ==> os[successes(os)] is Failure,
        forall|i: int| 0 <= i < successes(os) ==> #[trigger] os[i] is Response,
        -1 <= last_answer(os) < os.len(),
        last_answer(os) >= 0 ==> os[last_answer(os)] is Response,
        forall|i: int| last_answer(os) < i < os.len() ==> #[trigger] os[i] is Failure,
{
    lemma_successes(os);
    lemma_last_answer(os);
}

proof fn lemma_last_answer(os: Seq<HttpOutcome>)
    ensures
        -1 <= last_answer(os) < os.len(),
        last_answer(os) >= 0 ==> os[last_answer(os)] is Response,
        forall|i: int| last_answer(os) < i < os.len() ==> #[trigger] os[i] is Failure,
    decreases os.len(),
{
    if os.len() > 0 && !(os.last() is Response) {
        let front = os.drop_last();
        lemma_last_answer(front);
        assert forall|i: int| last_answer(os) < i < os.len() implies #[trigger] os[i] is Failure by {
            if i < front.len() {
                assert(front[i] is Failure);
            }
        }
    }
}

/// An item of a batch is a call: its method, its address below the base, its body
/// and its headers are those of the item.
pub proof fn batch_items_are_calls(
    r: HttpRequest,
    method: Option<String>,
    path: String,
    options: CallOptions,
    base: Seq<char>,
)
    requires
        is_item_request(
            r,
            BatchItem::Dict { method: Ok(method), path: Ok(Some(path)), options: Ok(options) },
            base,
        ),
        base.len() > 0 ==> base.last() != '/',
        path@.len() > 0 ==> path@[0] != '/',
    ensures
        r.url@ == base + seq!['/'] + path@,
        method is None ==> r.method == HttpMethod::Get,
        method is Some ==> Some(r.method) == crate::plan::method_named(
            crate::text::uppercase(method->0@),
        ),
        options.json is Some ==> r.body is Some && r.body->0@ == options.json->0@
            && crate::http::is_header_list(
            r.headers@,
            options.headers,
            r.body,
            ContentType::Json,
        ),
        options.json is None ==> (options.data matches Some(FormData::Text { text })
            ==> r.body is Some && r.body->0@ == text@ && crate::http::is_header_list(
            r.headers@,
            options.headers,
            r.body,
            ContentType::Form,
        )),
        options.json is None && options.data is None ==> r.body is None,
{
    one_slash_in_between(base, 0, path@);
    assert(base + Seq::new(0, |i: int| '/') =~= base);
}

} // verus!

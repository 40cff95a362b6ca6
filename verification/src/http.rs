//! HTTP requests as plain values: method, address, headers and body.
use crate::map::StringMap;
use crate::plan::HttpMethod;
use vstd::prelude::*;

verus! {

/// A request that is ready to be sent.
#[derive(Debug)]
pub struct HttpRequest {
    pub method: HttpMethod,
    pub url: String,
    /// Names and values, in the order in which they are sent.
    pub headers: Vec<(String, String)>,
    pub body: Option<String>,
}

/// What the body of a request is.
#[derive(Clone, Copy, Debug, PartialEq, Eq, Structural)]
pub enum ContentType {
    Json,
    Form,
    /// The body is sent without saying what it is.
    Unstated,
}

/// The name of a content type.
pub open spec fn content_type_name(t: ContentType) -> Seq<char> {
    match t {
        ContentType::Json => "application/json"@,
        ContentType::Form => "application/x-www-form-urlencoded"@,
        ContentType::Unstated => ""@,
    }
}

/// The header list of a map of headers, in the order of their names, and the
/// content type of the body where there is one to state.
pub open spec fn is_header_list(
    list: Seq<(String, String)>,
    headers: StringMap<String>,
    body: Option<String>,
    kind: ContentType,
) -> bool {
    let n = headers.keys().len();
    let stated = body is Some && kind != ContentType::Unstated;
    &&& list.len() == n + (if stated {
        1int
    } else {
        0
    })
    &&& forall|i: int|
        0 <= i < n ==> (#[trigger] list[i]).0@ == headers.keys()[i] && list[i].1
            == headers@[headers.keys()[i]]
    &&& stated ==> list.last().0@ == "Content-Type"@ && list.last().1@ == content_type_name(kind)
}

/// A request with the given headers and body.
pub fn make_request(
    method: HttpMethod,
    url: String,
    headers: &StringMap<String>,
    body: Option<String>,
    kind: ContentType,
) -> (r: HttpRequest)
    ensures
        r.method == method,
        r.url == url,
        r.body == body,
        headers.listed(),
        is_header_list(r.headers@, *headers, body, kind),
{
    let mut list: Vec<(String, String)> = Vec::new();
    let n: usize = headers.len();
    let mut i: usize = 0;
    while i < n
        invariant
            n == headers.keys().len(),
            i <= n,
            list@.len() == i,
            forall|j: int|
                0 <= j < i ==> (#[trigger] list@[j]).0@ == headers.keys()[j] && list@[j].1
                    == headers@[headers.keys()[j]],
        decreases n - i,
    {
        list.push((headers.key_at(i).clone(), headers.value_at(i).clone()));
        i = i + 1;
    }
    if body.is_some() {
        match kind {
            ContentType::Json => {
                list.push(("Content-Type".to_string(), "application/json".to_string()));
            },
            ContentType::Form => {
                list.push(
                    ("Content-Type".to_string(), "application/x-www-form-urlencoded".to_string()),
                );
            },
            ContentType::Unstated => {},
        }
    }
    HttpRequest { method, url, headers: list, body }
}

/// Whether a status counts as an error: one of 400 or above does.
pub fn is_error_status(status: u16) -> (r: bool)
    ensures
        r == (status >= 400),
{
    status >= 400
}

// ── Laws ──────────────────────────────────────────────────────────────────────

/// The list has a header of this name with this value.
pub open spec fn has_header(list: Seq<(String, String)>, name: Seq<char>, value: Seq<char>) -> bool {
    exists|i: int| 0 <= i < list.len() && (#[trigger] list[i]).0@ == name && list[i].1@ == value
}

/// Every header goes out with its value, in the order of the names, and no other
/// does but the type of the body: the last one, stated for a body of JSON or of a
/// form.
pub proof fn headers_go_out_as_they_are(
    list: Seq<(String, String)>,
    headers: StringMap<String>,
    body: Option<String>,
    kind: ContentType,
    k: Seq<char>,
)
    requires
        headers.listed(),
        is_header_list(list, headers, body, kind),
    ensures
        headers@.contains_key(k) ==> has_header(list, k, headers@[k]@),
        forall|i: int|
            0 <= i < headers@.dom().len() ==> headers@.contains_key((#[trigger] list[i]).0@) && list[i].1@
                == headers@[list[i].0@]@,
        forall|i: int, j: int|
            0 <= i < j < headers@.dom().len() ==> crate::text::text_less(
                (#[trigger] list[i]).0@,
                (#[trigger] list[j]).0@,
            ),
        body is Some && kind == ContentType::Json ==> list.len() > 0 && list.last().0@
            == "Content-Type"@ && list.last().1@ == "application/json"@,
        body is Some && kind == ContentType::Form ==> list.len() > 0 && list.last().0@
            == "Content-Type"@ && list.last().1@ == "application/x-www-form-urlencoded"@,
        body is None || kind == ContentType::Unstated ==> list.len() == headers@.dom().len(),
        body is Some && kind != ContentType::Unstated ==> list.len() == headers@.dom().len() + 1,
{
    let keys = headers.keys();
    keys.unique_seq_to_set();
    if headers@.contains_key(k) {
        let i = keys.index_of(k);
        assert(keys.contains(k));
        assert(list[i].0@ == k);
    }
    assert forall|i: int, j: int| 0 <= i < j < keys.len() implies crate::text::text_less(
        (#[trigger] list[i]).0@,
        (#[trigger] list[j]).0@,
    ) by {
        assert(crate::text::text_less(keys[i], keys[j]));
    }
    assert forall|i: int| 0 <= i < keys.len() implies headers@.contains_key(
        (#[trigger] list[i]).0@,
    ) && list[i].1@ == headers@[list[i].0@]@ by {
        assert(headers@.contains_key(keys[i]));
    }
}

} // verus!

//! HTTP responses as task methods see them, and the JSON in their bodies.
use crate::decimal::to_decimal;
use crate::map::StringMap;
use crate::text::starts_with;
use crate::text::trim_start;
use vstd::prelude::*;

verus! {

// ── Trusted: serde_json ───────────────────────────────────────────────────────

/// `serde_json::Value`, a JSON document. It is carried through unread.
#[verifier::external_type_specification]
#[verifier::external_body]
pub struct ExJsonValue(serde_json::Value);

/// What `serde_json::from_str` makes of a text: the document, or the message of
/// its error.
pub uninterp spec fn json_of(text: Seq<char>) -> Result<serde_json::Value, Seq<char>>;

/// A result with its error as a text.
pub open spec fn with_error_text(r: Result<serde_json::Value, String>) -> Result<
    serde_json::Value,
    Seq<char>,
> {
    match r {
        Ok(v) => Ok(v),
        Err(e) => Err(e@),
    }
}

/// `serde_json::from_str` reads a text as one JSON document. The result depends
/// on the text alone; an error is given by its message. Which texts are accepted
/// and what the messages say is left to the name.
#[verifier::external_body]
fn read_json(text: &str) -> (r: Result<serde_json::Value, String>)
    ensures
        with_error_text(r) == json_of(text@),
{
    serde_json::from_str(text).map_err(|e| e.to_string())
}

// ── JSON bodies ───────────────────────────────────────────────────────────────

/// A body that looks like an object or an array.
pub open spec fn looks_like_json(body: Seq<char>) -> bool {
    let t = crate::text::trim_front(body);
    crate::text::begins_with(t, "{"@) || crate::text::begins_with(t, "["@)
}

/// Whether a body looks like an object or an array.
pub fn has_json_shape(body: &str) -> (r: bool)
    ensures
        r == looks_like_json(body@),
{
    let t = trim_start(body);
    starts_with(t.as_str(), "{") || starts_with(t.as_str(), "[")
}

/// The document that was read, if one was.
pub fn document_of(read: Result<serde_json::Value, String>) -> (r: Option<serde_json::Value>)
    ensures
        read matches Ok(v) ==> r == Some(v),
        read is Err ==> r is None,
{
    match read {
        Ok(v) => Some(v),
        Err(_) => None,
    }
}

/// The document in a body, if the body looks like an object or an array and is
/// one.
pub fn parse_json_body(body: &str) -> (r: Option<serde_json::Value>)
    ensures
        r is Some <==> looks_like_json(body@) && json_of(body@) is Ok,
        r matches Some(v) ==> json_of(body@) == with_error_text(Ok(v)),
{
    if has_json_shape(body) {
        document_of(read_json(body))
    } else {
        None
    }
}

// ── Responses ─────────────────────────────────────────────────────────────────

/// A response.
#[derive(Debug)]
pub struct RustResponse {
    pub status_code: u16,
    /// Whether the status is below 400.
    pub ok: bool,
    pub text: String,
    pub headers: StringMap<String>,
    /// Whether the document in the body has been kept.
    pub json_kept: bool,
}

/// Where the document of a response comes from.
pub enum JsonAnswer {
    /// It has been kept.
    Kept,
    /// It has been read just now.
    Read { value: serde_json::Value },
}

/// The message of a body that is no JSON, given the reader's own.
pub open spec fn decode_error(message: Seq<char>) -> Seq<char> {
    "JSON decode error: "@ + message
}

/// The message of a body that is no JSON, given the reader's own.
pub fn decode_error_text(message: &str) -> (m: String)
    ensures
        m@ == decode_error(message@),
{
    let mut m = "JSON decode error: ".to_string();
    m.append(message);
    m
}

/// The answer for a body that was not kept, given what it reads as.
pub fn answer_of(read: Result<serde_json::Value, String>) -> (r: Result<JsonAnswer, String>)
    ensures
        read matches Ok(v) ==> r matches Ok(JsonAnswer::Read { value }) && value == v,
        read matches Err(m) ==> r matches Err(e) && e@ == decode_error(m@),
{
    match read {
        Ok(value) => Ok(JsonAnswer::Read { value }),
        Err(e) => Err(decode_error_text(e.as_str())),
    }
}

impl RustResponse {
    /// A response with this status, these headers and this body.
    pub fn new(status_code: u16, headers: StringMap<String>, text: String, json_kept: bool) -> (r:
        RustResponse)
        ensures
            r.status_code == status_code,
            r.ok == (status_code < 400),
            r.text == text,
            r.headers == headers,
            r.json_kept == json_kept,
    {
        RustResponse { status_code, ok: status_code < 400, text, headers, json_kept }
    }

    /// The document in the body: the one that has been kept, or what the body
    /// reads as now.
    pub fn json(&self) -> (r: Result<JsonAnswer, String>)
        ensures
            self.json_kept ==> r matches Ok(JsonAnswer::Kept),
            !self.json_kept ==> (r is Ok <==> json_of(self.text@) is Ok),
            !self.json_kept && r is Ok ==> (r matches Ok(JsonAnswer::Read { value })
                && json_of(self.text@) == with_error_text(Ok(value))),
            r matches Err(e) ==> (json_of(self.text@) matches Err(m) && e@ == decode_error(m)),
    {
        if self.json_kept {
            return Ok(JsonAnswer::Kept);
        }
        answer_of(read_json(self.text.as_str()))
    }

    /// Fails exactly where the status is 400 or above.
    pub fn raise_for_status(&self) -> (r: Result<(), String>)
        ensures
            r is Err <==> self.status_code >= 400,
            r matches Err(e) ==> e@ == "HTTP error "@ + crate::decimal::decimal(
                self.status_code as nat,
            ),
    {
        if self.status_code >= 400 {
            let mut e = "HTTP error ".to_string();
            let code = to_decimal(self.status_code as u128);
            e.append(code.as_str());
            Err(e)
        } else {
            Ok(())
        }
    }
}

// ── Laws ──────────────────────────────────────────────────────────────────────

/// A body looks like JSON exactly where its first character that is no white space
/// is an opening brace or bracket.
pub proof fn first_character_decides(blanks: Seq<char>, c: char, rest: Seq<char>)
    requires
        forall|i: int| 0 <= i < blanks.len() ==> crate::text::is_space(#[trigger] blanks[i]),
        !crate::text::is_space(c),
    ensures
        looks_like_json(blanks + seq![c] + rest) <==> c == '{' || c == '[',
{
    reveal_strlit("{");
    reveal_strlit("[");
    crate::text::front_is_trimmed(blanks, seq![c] + rest);
    let t = seq![c] + rest;
    assert(blanks + seq![c] + rest =~= blanks + t);
    assert(t.take(1) =~= seq![c]);
    assert("{"@ =~= seq!['{']);
    assert("["@ =~= seq!['[']);
    if c != '{' {
        assert(t.take(1)[0] != "{"@[0]);
    }
    if c != '[' {
        assert(t.take(1)[0] != "["@[0]);
    }
}

/// The message of a body that is no JSON ends with the reader's own.
pub proof fn decode_errors_keep_the_message(message: Seq<char>)
    ensures
        decode_error(message).take("JSON decode error: "@.len() as int) == "JSON decode error: "@,
        decode_error(message).skip("JSON decode error: "@.len() as int) == message,
{
    let k = "JSON decode error: "@.len() as int;
    assert(decode_error(message).take(k) =~= "JSON decode error: "@);
    assert(decode_error(message).skip(k) =~= message);
}

/// A result with its error as a text is the same result.
pub proof fn errors_become_texts(v: serde_json::Value, e: String)
    ensures
        with_error_text(Ok(v)) == Ok::<serde_json::Value, Seq<char>>(v),
        with_error_text(Err(e)) == Err::<serde_json::Value, Seq<char>>(e@),
{
}

} // verus!

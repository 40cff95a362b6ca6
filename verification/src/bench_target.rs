//! A small server to measure against: what it answers.
use crate::text::same_text;
use vstd::prelude::*;

verus! {

/// The answer of the health check, as JSON.
pub fn health_body() -> (r: &'static str)
    ensures
        r@ == "{\"status\":\"ok\"}"@,
{
    "{\"status\":\"ok\"}"
}

/// The answer to a login, as JSON.
pub fn login_body() -> (r: &'static str)
    ensures
        r@ == "{\"access_token\":\"bench-token\"}"@,
{
    "{\"access_token\":\"bench-token\"}"
}

/// The answer to a request for the user, as JSON: none without the right
/// authorization.
pub fn user_body(authorization: Option<&str>) -> (r: Option<&'static str>)
    ensures
        r is Some <==> (authorization matches Some(a) && a@ == "Bearer bench-token"@),
        r matches Some(body) ==> body@ == "{\"id\":1,\"name\":\"bench\"}"@,
{
    let ok = match authorization {
        Some(a) => same_text(a, "Bearer bench-token"),
        None => false,
    };
    if ok {
        Some("{\"id\":1,\"name\":\"bench\"}")
    } else {
        None
    }
}

} // verus!

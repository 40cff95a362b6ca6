//! A pool of workers: how large it is, and the requests that it sends.
use crate::http::make_request;
use crate::http::ContentType;
use crate::http::HttpRequest;
use crate::map::StringMap;
use crate::number::Fraction;
use crate::plan::HttpMethod;
use vstd::prelude::*;

verus! {

/// The settings of a pool of workers.
#[derive(Debug)]
pub struct WorkerConfig {
    pub target_rps: Fraction,
    pub ramp_up_ns: u64,
    pub duration_ns: u64,
    pub concurrency: usize,
    pub base_url: String,
}

/// Four workers for each whole request a second, and at least 100.
pub open spec fn pool_size(target_rps: Fraction) -> int {
    let n = target_rps.num as int / target_rps.den as int * 4;
    if n < 100 {
        100
    } else {
        n
    }
}

impl WorkerConfig {
    /// How many workers there are at most.
    pub fn max_concurrency(&self) -> (n: usize)
        requires
            self.target_rps.wf(),
            pool_size(self.target_rps) <= usize::MAX,
        ensures
            n == pool_size(self.target_rps),
    {
        let whole: u128 = self.target_rps.num / self.target_rps.den;
        if whole < 25 {
            100
        } else {
            whole as usize * 4
        }
    }
}

/// The request that a worker sends. The method counts in any letter case; the
/// error holds the message for one that is not known. A body is JSON.
pub fn prepare_request(
    method: &str,
    url: &str,
    headers: &StringMap<String>,
    body: Option<String>,
) -> (r: Result<HttpRequest, String>)
    ensures
        r is Ok <==> crate::plan::method_named(crate::text::uppercase(method@)) is Some,
        r matches Ok(q) ==> {
            &&& crate::plan::method_named(crate::text::uppercase(method@)) == Some(q.method)
            &&& q.url@ == url@
            &&& q.body == body
            &&& crate::http::is_header_list(q.headers@, *headers, body, ContentType::Json)
        },
        r matches Err(e) ==> e@ == "Unknown HTTP method: "@ + crate::text::uppercase(method@),
        crate::text::is_ascii(method@) ==> crate::text::uppercase(method@)
            == crate::text::ascii_uppercase(method@),
{
    match HttpMethod::parse(method) {
        Ok(m) => Ok(make_request(m, url.to_string(), headers, body, ContentType::Json)),
        Err(e) => Err(e),
    }
}

/// There are four workers for each whole request a second, but at least a hundred.
pub proof fn pools_follow_the_rate(rate: Fraction)
    requires
        rate.den > 0,
    ensures
        pool_size(rate) >= 100,
        rate.num >= 25 * rate.den ==> {
            &&& pool_size(rate) * rate.den <= 4 * rate.num
            &&& (pool_size(rate) + 4) * rate.den > 4 * rate.num
            &&& pool_size(rate) % 4 == 0
        },
        rate.num < 26 * rate.den ==> pool_size(rate) == 100,
{
    let n = rate.num as int;
    let d = rate.den as int;
    let q = n / d;
    vstd::arithmetic::div_mod::lemma_fundamental_div_mod(n, d);
    assert(n >= 25 * d ==> q >= 25) by (nonlinear_arith)
        requires
            n == d * q + n % d,
            n % d < d,
            d > 0,
    ;
    assert(n < 26 * d ==> q < 26) by (nonlinear_arith)
        requires
            n == d * q + n % d,
            n % d >= 0,
            d > 0,
    ;
    assert(q * 4 * d <= 4 * n && (q * 4 + 4) * d > 4 * n) by (nonlinear_arith)
        requires
            n == d * q + n % d,
            0 <= n % d < d,
    ;
}

} // verus!

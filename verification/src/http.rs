//! Request admission and routing of the experimental HTTP server.
//!
//! The server reads a request's method, URL, headers and body; these
//! functions decide what happens to it: probes are answered without
//! authentication, other routes need the bearer token when one is set, are
//! shed when too many requests are in flight, and are refused when the body
//! cannot be read or is too large.

use vstd::prelude::*;
use std::sync::Arc;
use std::sync::atomic::AtomicBool;

use crate::metrics::{
    http_counted, inc_http, inc_http_rejected, inflight_dec, inflight_inc, wrap_add,
    wrap_add_i64, MetricsRegistry, MetricsView,
};
use crate::text::{ascii_lowercase, chars_eq, chars_of, push_str, to_ascii_lowercase};

verus! {

/// Request body size limit (HTTP 413 beyond it): 1 MiB.
pub const MAX_BODY_BYTES: u64 = 1024 * 1024;

/// Results returned by `/search` when the body does not say `k`.
pub fn default_k() -> (k: usize)
    ensures
        k == 5,
{
    5
}

/// Configuration of the HTTP server.
pub struct ServerConfig {
    pub addr: String,
    pub workers: usize,
    pub auth_token: Option<String>,
    /// Maximum concurrent in-flight requests; 0 means unlimited.
    pub max_inflight: usize,
    /// Set to `true` to make the workers stop polling and exit.
    pub shutdown: Arc<AtomicBool>,
}

/// Worker threads started for a configured worker count (at least one).
pub fn worker_count(workers: usize) -> (n: usize)
    ensures
        n == (if workers == 0 { 1 } else { workers }),
{
    if workers == 0 { 1 } else { workers }
}

/// Request methods the server tells apart.
#[derive(Clone, Copy, Debug, PartialEq, Eq, Structural)]
pub enum HttpMethod {
    Get,
    Post,
    Other,
}

/// Where a request goes.
#[derive(Clone, Copy, Debug, PartialEq, Eq, Structural)]
pub enum Route {
    Health,
    Ready,
    Metrics,
    Logs,
    Search,
    Stats,
    NotFound,
}

/// The route of a method and URL.
pub open spec fn route_spec(method: HttpMethod, url: Seq<char>) -> Route {
    if method == HttpMethod::Get && url == "/health"@ {
        Route::Health
    } else if method == HttpMethod::Get && url == "/ready"@ {
        Route::Ready
    } else if method == HttpMethod::Get && url == "/metrics"@ {
        Route::Metrics
    } else if method == HttpMethod::Post && url == "/logs"@ {
        Route::Logs
    } else if method == HttpMethod::Post && url == "/search"@ {
        Route::Search
    } else if method == HttpMethod::Get && url == "/stats"@ {
        Route::Stats
    } else {
        Route::NotFound
    }
}

/// Whether a route is an operational probe, exempt from authentication,
/// backpressure and body reading.
pub open spec fn is_probe_route(r: Route) -> bool {
    r == Route::Health || r == Route::Ready || r == Route::Metrics
}

/// Routes a request.
pub fn route(method: HttpMethod, url: &str) -> (r: Route)
    ensures
        r == route_spec(method, url@),
{
    let u = chars_of(url);
    if method == HttpMethod::Get && chars_eq(&u, &chars_of("/health")) {
        Route::Health
    } else if method == HttpMethod::Get && chars_eq(&u, &chars_of("/ready")) {
        Route::Ready
    } else if method == HttpMethod::Get && chars_eq(&u, &chars_of("/metrics")) {
        Route::Metrics
    } else if method == HttpMethod::Post && chars_eq(&u, &chars_of("/logs")) {
        Route::Logs
    } else if method == HttpMethod::Post && chars_eq(&u, &chars_of("/search")) {
        Route::Search
    } else if method == HttpMethod::Get && chars_eq(&u, &chars_of("/stats")) {
        Route::Stats
    } else {
        Route::NotFound
    }
}

/// Whether a GET to `url` is an operational probe (`/health`, `/ready`,
/// `/metrics`).
pub fn is_probe(method: HttpMethod, url: &str) -> (b: bool)
    ensures
        b == is_probe_route(route_spec(method, url@)),
{
    let r = route(method, url);
    r == Route::Health || r == Route::Ready || r == Route::Metrics
}

/// Whether some header is `Authorization` (names compare ignoring ASCII
/// case) with the value `Bearer <token>` exactly.
pub open spec fn authorized_spec(headers: Seq<(Seq<char>, Seq<char>)>, token: Seq<char>) -> bool {
    exists|i: int|
        0 <= i < headers.len() && ascii_lowercase(#[trigger] headers[i].0) == "authorization"@
            && headers[i].1 == "Bearer "@ + token
}

/// The headers as (name, value) character runs.
pub open spec fn headers_view(headers: Seq<(String, String)>) -> Seq<(Seq<char>, Seq<char>)> {
    headers.map_values(|h: (String, String)| (h.0@, h.1@))
}

/// Checks the bearer token among the request headers.
pub fn authorized(headers: &Vec<(String, String)>, token: &str) -> (b: bool)
    ensures
        b == authorized_spec(headers_view(headers@), token@),
{
    let mut expected = String::new();
    push_str(&mut expected, "Bearer ");
    push_str(&mut expected, token);
    let want = chars_of(expected.as_str());
    let name = chars_of("authorization");
    let ghost hv = headers_view(headers@);
    let mut i: usize = 0;
    while i < headers.len()
        invariant
            i <= headers@.len(),
            hv == headers_view(headers@),
            want@ == "Bearer "@ + token@,
            name@ == "authorization"@,
            forall|j: int| 0 <= j < i ==> !(ascii_lowercase(#[trigger] hv[j].0) == "authorization"@
                && hv[j].1 == "Bearer "@ + token@),
        decreases headers@.len() - i,
    {
        let field = to_ascii_lowercase(&chars_of(headers[i].0.as_str()));
        let value = chars_of(headers[i].1.as_str());
        assert(hv[i as int] == (headers@[i as int].0@, headers@[i as int].1@));
        if chars_eq(&field, &name) && chars_eq(&value, &want) {
            assert(ascii_lowercase(hv[i as int].0) == "authorization"@);
            assert(hv[i as int].1 == "Bearer "@ + token@);
            return true;
        }
        i = i + 1;
    }
    false
}

/// What happens to a request before its body is read.
#[derive(Clone, Copy, Debug, PartialEq, Eq, Structural)]
pub enum Admission {
    /// An operational probe, answered at once.
    Probe(Route),
    /// A token is configured and the request does not carry it (HTTP 401).
    Unauthorized,
    /// Goes on to backpressure and body reading.
    Proceed,
}

/// Admission of a request.
pub open spec fn admission_spec(
    method: HttpMethod,
    url: Seq<char>,
    auth_token: Option<Seq<char>>,
    headers: Seq<(Seq<char>, Seq<char>)>,
) -> Admission {
    let r = route_spec(method, url);
    if is_probe_route(r) {
        Admission::Probe(r)
    } else if auth_token matches Some(t) && !authorized_spec(headers, t) {
        Admission::Unauthorized
    } else {
        Admission::Proceed
    }
}

/// Decides whether a request is a probe, is refused for lack of the bearer
/// token, or proceeds.
pub fn admission(
    method: HttpMethod,
    url: &str,
    auth_token: Option<&str>,
    headers: &Vec<(String, String)>,
) -> (a: Admission)
    ensures
        a == admission_spec(method, url@, match auth_token { Some(t) => Some(t@), None => None }, headers_view(headers@)),
{
    let r = route(method, url);
    if r == Route::Health || r == Route::Ready || r == Route::Metrics {
        return Admission::Probe(r);
    }
    match auth_token {
        Some(t) => {
            if !authorized(headers, t) {
                return Admission::Unauthorized;
            }
        },
        None => {},
    }
    Admission::Proceed
}

/// Whether a request is shed (HTTP 503): a limit is set and `prev_inflight`
/// requests were already in flight when it arrived.
pub fn overloaded(max_inflight: usize, prev_inflight: usize) -> (b: bool)
    ensures
        b == (max_inflight > 0 && prev_inflight >= max_inflight),
{
    max_inflight > 0 && prev_inflight >= max_inflight
}

/// The refusal status for a request body: 400 when it could not be read,
/// 413 when it exceeds `MAX_BODY_BYTES`, none otherwise.
pub open spec fn body_rejection_spec(read_ok: bool, body_len: u64) -> Option<u16> {
    if !read_ok { Some(400u16) } else if body_len > MAX_BODY_BYTES { Some(413u16) } else { None }
}

/// Decides whether a request body is refused, and with which status.
pub fn body_rejection(read_ok: bool, body_len: u64) -> (s: Option<u16>)
    ensures
        s == body_rejection_spec(read_ok, body_len),
{
    if !read_ok {
        Some(400)
    } else if body_len > MAX_BODY_BYTES {
        Some(413)
    } else {
        None
    }
}

/// Backpressure for an admitted request, given how many requests were in
/// flight when it arrived: shed it (one more rejection and one more 503
/// counted; it holds no slot) or let it through (holding an in-flight slot
/// when a limit is set). Whether it goes on.
pub fn shed_or_admit(reg: &mut MetricsRegistry, max_inflight: usize, prev_inflight: usize) -> (go_on: bool)
    ensures
        go_on == !(max_inflight > 0 && prev_inflight >= max_inflight),
        final(reg).wf() == old(reg).wf(),
        !go_on ==> final(reg)@ == http_counted(
            MetricsView { http_rejected: wrap_add(old(reg)@.http_rejected, 1), ..old(reg)@ },
            503,
        ),
        go_on && max_inflight > 0 ==> final(reg)@ == (MetricsView { inflight: wrap_add_i64(old(reg)@.inflight, 1i64), ..old(reg)@ }),
        go_on && max_inflight == 0 ==> final(reg)@ == old(reg)@,
{
    if overloaded(max_inflight, prev_inflight) {
        inc_http_rejected(reg);
        inc_http(reg, 503);
        false
    } else {
        if max_inflight > 0 {
            inflight_inc(reg);
        }
        true
    }
}

/// Ends a request that went past backpressure: gives its in-flight slot
/// back when it held one, then counts its response status.
pub fn finish(reg: &mut MetricsRegistry, holds_slot: bool, status: u16)
    ensures
        final(reg).wf() == old(reg).wf(),
        final(reg)@ == http_counted(
            if holds_slot { MetricsView { inflight: wrap_add_i64(old(reg)@.inflight, -1i64), ..old(reg)@ } } else { old(reg)@ },
            status,
        ),
{
    if holds_slot {
        inflight_dec(reg);
    }
    inc_http(reg, status);
}

/// Every request that takes an in-flight slot gives it back: a request let
/// through backpressure and then finished leaves the in-flight gauge where
/// it was, and is counted once under its status.
pub proof fn lemma_slot_returned(m: MetricsView, max_inflight: usize, status: u16)
    ensures
        ({
            let taken = if max_inflight > 0 { MetricsView { inflight: wrap_add_i64(m.inflight, 1i64), ..m } } else { m };
            let released = if max_inflight > 0 { MetricsView { inflight: wrap_add_i64(taken.inflight, -1i64), ..taken } } else { taken };
            http_counted(released, status) == http_counted(m, status)
        }),
{
}

/// The status of a request whose body was read: the body refusal when
/// there is one, 404 for an unknown route, else what handling the route
/// answered.
pub fn response_status(route: Route, read_ok: bool, body_len: u64, handled: u16) -> (s: u16)
    ensures
        s == (match body_rejection_spec(read_ok, body_len) {
            Some(r) => r,
            None => if route == Route::NotFound { 404u16 } else { handled },
        }),
{
    match body_rejection(read_ok, body_len) {
        Some(r) => r,
        None => if route == Route::NotFound { 404 } else { handled },
    }
}

} // verus!

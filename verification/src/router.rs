//! Request routing and response composition.
//!
//! A request is dispatched on its path alone: `/health` answers a fixed
//! liveness body, `/compute` forwards the caller's `prompt` parameter
//! to the downstream service and relays what came back, and every other
//! path answers a fixed greeting. The downstream call itself is the one
//! piece of outside work: [`handle_req`] returns either a finished
//! response or the URL to fetch, and [`compute_handler`] turns the
//! outcome of that fetch into the response.

use vstd::prelude::*;

use crate::query::parse_query;
use crate::query::parse_query_spec;
use crate::query::QueryParams;
use crate::text::str_eq;

verus! {

/// A plain HTTP response: a status code, an optional `Content-Type`
/// header value, and a body.
#[derive(Debug)]
pub struct HttpResponse {
    pub status: u16,
    pub content_type: Option<String>,
    pub body: String,
}

/// What came of the one downstream GET: its body on success, or the
/// description of the failure, either of the call itself or of reading
/// the body of a completed call.
#[derive(Debug)]
pub enum DownstreamOutcome {
    Success(String),
    ReadError(String),
    ConnectError(String),
}

/// The closed set of routes a path can dispatch to.
#[derive(Clone, Copy, Debug, PartialEq, Eq, Structural)]
pub enum Route {
    Health,
    Compute,
    Other,
}

/// What the router decides for one request: either a finished response,
/// or the downstream URL whose fetched outcome [`compute_handler`]
/// turns into the response.
#[derive(Debug)]
pub enum Step {
    Respond(HttpResponse),
    CallDownstream(String),
}

/// The route a path dispatches to.
pub open spec fn spec_route(path: Seq<char>) -> Route {
    if path == "/health"@ {
        Route::Health
    } else if path == "/compute"@ {
        Route::Compute
    } else {
        Route::Other
    }
}

/// The prompt a parameter mapping carries: the value under `prompt`,
/// or `none` when the key is absent.
pub open spec fn spec_prompt(m: Map<Seq<char>, Seq<char>>) -> Seq<char> {
    if m.contains_key("prompt"@) {
        m["prompt"@]
    } else {
        "none"@
    }
}

/// The downstream URL built for a raw query string: the fixed service
/// address with the prompt substituted in, unescaped.
pub open spec fn spec_downstream_url(q: Seq<char>) -> Seq<char> {
    "http://python_agent:9000/chat_gpt?prompt="@ + spec_prompt(parse_query_spec(q))
}

/// The downstream text relayed for an outcome: the fetched body, or an
/// in-band description of the failure.
pub open spec fn spec_downstream_text(o: DownstreamOutcome) -> Seq<char> {
    match o {
        DownstreamOutcome::Success(t) => t@,
        DownstreamOutcome::ReadError(e) => "Error reading synergy text: "@ + e@,
        DownstreamOutcome::ConnectError(e) => "Error calling synergy agent: "@ + e@,
    }
}

/// The `/compute` response body for an outcome.
pub open spec fn spec_compute_body(o: DownstreamOutcome) -> Seq<char> {
    "Rust synergy result => Python synergy says:\n"@ + spec_downstream_text(o) + "\n"@
}

/// The liveness response: `200` with body `OK` and no explicit
/// `Content-Type`.
pub open spec fn is_health_response(r: HttpResponse) -> bool {
    &&& r.status == 200
    &&& r.content_type is None
    &&& r.body@ == "OK"@
}

/// The default response: `200` with the fixed plain-text greeting.
pub open spec fn is_greeting_response(r: HttpResponse) -> bool {
    &&& r.status == 200
    &&& (r.content_type matches Some(ct) && ct@ == "text/plain"@)
    &&& r.body@ == "Hello from Rust. Try /health or /compute?prompt=Hello\n"@
}

/// The `/compute` response for an outcome: always `200` plain text,
/// with any downstream failure reported in the body instead.
pub open spec fn is_compute_response(r: HttpResponse, o: DownstreamOutcome) -> bool {
    &&& r.status == 200
    &&& (r.content_type matches Some(ct) && ct@ == "text/plain"@)
    &&& r.body@ == spec_compute_body(o)
}

/// A `/compute` request whose query string carries no `prompt` key is
/// forwarded downstream with the literal prompt `none`.
pub proof fn lemma_missing_prompt_defaults(q: Seq<char>)
    requires
        !parse_query_spec(q).contains_key("prompt"@),
    ensures
        spec_downstream_url(q) == "http://python_agent:9000/chat_gpt?prompt=none"@,
{
    reveal_strlit("http://python_agent:9000/chat_gpt?prompt=");
    reveal_strlit("none");
    reveal_strlit("http://python_agent:9000/chat_gpt?prompt=none");
    assert(spec_downstream_url(q) =~= "http://python_agent:9000/chat_gpt?prompt=none"@);
}

/// A failed downstream call is reported in-band: the `/compute` body
/// still begins with the fixed text naming the call failure, whatever
/// the failure's description.
pub proof fn lemma_connect_error_prefix(o: DownstreamOutcome)
    requires
        o is ConnectError,
    ensures
        spec_compute_body(o).len() >= "Rust synergy result => Python synergy says:\nError calling synergy agent: "@.len(),
        spec_compute_body(o).subrange(
            0,
            "Rust synergy result => Python synergy says:\nError calling synergy agent: "@.len() as int,
        ) == "Rust synergy result => Python synergy says:\nError calling synergy agent: "@,
{
    reveal_strlit("Rust synergy result => Python synergy says:\n");
    reveal_strlit("Error calling synergy agent: ");
    reveal_strlit("Rust synergy result => Python synergy says:\nError calling synergy agent: ");
    let a = "Rust synergy result => Python synergy says:\n"@;
    let b = "Error calling synergy agent: "@;
    let c = "Rust synergy result => Python synergy says:\nError calling synergy agent: "@;
    assert(a + b =~= c);
    assert(spec_compute_body(o).subrange(0, c.len() as int) =~= c);
}

/// Dispatch a path to its route. The query string plays no part.
pub fn route_of(path: &str) -> (r: Route)
    ensures
        r == spec_route(path@),
{
    if str_eq(path, "/health") {
        Route::Health
    } else if str_eq(path, "/compute") {
        Route::Compute
    } else {
        Route::Other
    }
}

/// The value forwarded downstream: the `prompt` parameter, defaulting
/// to `none` when the query string has no such key.
pub fn prompt_of(params: &QueryParams) -> (p: String)
    ensures
        p@ == spec_prompt(params@),
{
    match params.get("prompt") {
        Some(v) => v,
        None => String::from_str("none"),
    }
}

/// Build the downstream URL for a raw query string.
pub fn compute_url(query_str: &str) -> (u: String)
    ensures
        u@ == spec_downstream_url(query_str@),
{
    let params = parse_query(query_str);
    let prompt = prompt_of(&params);
    String::from_str("http://python_agent:9000/chat_gpt?prompt=").concat(prompt.as_str())
}

/// The `/health` handler.
pub fn health_handler() -> (r: HttpResponse)
    ensures
        is_health_response(r),
{
    HttpResponse { status: 200, content_type: None, body: String::from_str("OK") }
}

/// The default handler for every path that is neither `/health` nor
/// `/compute`.
pub fn root_handler() -> (r: HttpResponse)
    ensures
        is_greeting_response(r),
{
    HttpResponse {
        status: 200,
        content_type: Some(String::from_str("text/plain")),
        body: String::from_str("Hello from Rust. Try /health or /compute?prompt=Hello\n"),
    }
}

/// The `/compute` handler, given the outcome of the downstream GET.
/// Every outcome, failure included, yields a `200` with the composed
/// message as its body.
pub fn compute_handler(outcome: DownstreamOutcome) -> (r: HttpResponse)
    ensures
        is_compute_response(r, outcome),
{
    let body = match outcome {
        DownstreamOutcome::Success(t) => String::from_str(
            "Rust synergy result => Python synergy says:\n",
        ).concat(t.as_str()).concat("\n"),
        DownstreamOutcome::ReadError(e) => String::from_str(
            "Rust synergy result => Python synergy says:\n",
        ).concat("Error reading synergy text: ").concat(e.as_str()).concat("\n"),
        DownstreamOutcome::ConnectError(e) => String::from_str(
            "Rust synergy result => Python synergy says:\n",
        ).concat("Error calling synergy agent: ").concat(e.as_str()).concat("\n"),
    };
    proof {
        assert(body@ =~= spec_compute_body(outcome));
    }
    HttpResponse {
        status: 200,
        content_type: Some(String::from_str("text/plain")),
        body,
    }
}

/// Decide one request: respond at once for `/health` and for unknown
/// paths, and hand back the downstream URL for `/compute`. The caller
/// fetches that URL and passes the outcome to [`compute_handler`].
pub fn handle_req(path: &str, query_str: &str) -> (s: Step)
    ensures
        spec_route(path@) is Health ==> (s matches Step::Respond(r) && is_health_response(r)),
        spec_route(path@) is Compute ==> (s matches Step::CallDownstream(u) && u@
            == spec_downstream_url(query_str@)),
        spec_route(path@) is Other ==> (s matches Step::Respond(r) && is_greeting_response(r)),
{
    match route_of(path) {
        Route::Health => Step::Respond(health_handler()),
        Route::Compute => Step::CallDownstream(compute_url(query_str)),
        Route::Other => Step::Respond(root_handler()),
    }
}

} // verus!

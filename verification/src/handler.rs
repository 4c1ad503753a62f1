//! Per-request orchestration: gate the hostname, read the query options, and
//! map the resolver's outcome to a status code and body. The resolver call
//! itself is network I/O and sits between the two halves, outside the library.

use vstd::prelude::*;
use crate::host::{valid_host, validate_host};
use crate::query::{parse_query, spec_parse_query, ResolveQuery};
use crate::response::{HttpResponse, STATUS_BAD_REQUEST, STATUS_INTERNAL_SERVER_ERROR,
    STATUS_NOT_FOUND, STATUS_OK};
use crate::shape::{kept_len, shape};
use crate::text::{join_lines, spec_join_lines};

verus! {

/// What the first half of a resolution request decides: answer at once, or
/// look the hostname up with these options.
pub enum ResolveStep {
    Reject(HttpResponse),
    Lookup(ResolveQuery),
}

/// What the resolver handed back: its address list (possibly empty), or a
/// transport or protocol failure. A name that resolves to nothing is an empty
/// list here, not a failure.
pub enum LookupOutcome {
    Addresses(Vec<String>),
    TransportFailure,
}

/// The first half of a resolution request: an invalid hostname or a malformed
/// query string is answered with a client error before any lookup; otherwise
/// the parsed options say how to shape what the lookup returns.
pub fn resolve_request_begin(host: &str, raw_query: &str) -> (step: ResolveStep)
    ensures
        !valid_host(host@) ==> (step matches ResolveStep::Reject(resp) && resp.status
            == STATUS_BAD_REQUEST && resp.body@.len() == 0 && resp.headers@.len() == 0),
        valid_host(host@) && spec_parse_query(raw_query@) is None ==> (step
            matches ResolveStep::Reject(resp) && resp.status == STATUS_BAD_REQUEST
            && resp.body@.len() == 0 && resp.headers@.len() == 0),
        valid_host(host@) ==> (spec_parse_query(raw_query@) matches Some(q) ==> step
            == ResolveStep::Lookup(q)),
{
    if !validate_host(host) {
        return ResolveStep::Reject(HttpResponse::with_status(STATUS_BAD_REQUEST));
    }
    match parse_query(raw_query) {
        Some(q) => ResolveStep::Lookup(q),
        None => ResolveStep::Reject(HttpResponse::with_status(STATUS_BAD_REQUEST)),
    }
}

/// The second half of a resolution request: a transport failure becomes a
/// server error, an empty address list becomes 404 with the body `nx`, and a
/// nonempty one is shaped and answered 200 with one address per line.
pub fn resolve_request_finish(
    q: &ResolveQuery,
    outcome: LookupOutcome,
    rng: &mut rand::rngs::SmallRng,
) -> (res: HttpResponse)
    ensures
        res.headers@.len() == 0,
        outcome matches LookupOutcome::TransportFailure ==> res.status
            == STATUS_INTERNAL_SERVER_ERROR && res.body@.len() == 0,
        outcome matches LookupOutcome::Addresses(a) ==> ((a@.len() == 0 ==> res.status
            == STATUS_NOT_FOUND && res.body@ == "nx"@) && (a@.len() > 0 ==> res.status == STATUS_OK
            && (exists|kept: Seq<Seq<char>>|
            kept.to_multiset() == a.deep_view().take(
                kept_len(q.n, a@.len() as nat),
            ).to_multiset() && res.body@ == spec_join_lines(kept))) && (a@.len() > 0 && q.r == 0
            ==> res.body@ == spec_join_lines(
            a.deep_view().take(kept_len(q.n, a@.len() as nat)),
        ))),
{
    match outcome {
        LookupOutcome::TransportFailure => HttpResponse::with_status(
            STATUS_INTERNAL_SERVER_ERROR,
        ),
        LookupOutcome::Addresses(addrs) => {
            if addrs.is_empty() {
                return HttpResponse::with_body(STATUS_NOT_FOUND, String::from_str("nx"));
            }
            let ghost spec_kept = addrs.deep_view().take(kept_len(q.n, addrs@.len() as nat));
            let shaped = shape(addrs, q, rng);
            let body = join_lines(&shaped);
            proof {
                assert(shaped.deep_view().to_multiset() == spec_kept.to_multiset() && body@
                    == spec_join_lines(shaped.deep_view()));
            }
            HttpResponse::with_body(STATUS_OK, body)
        },
    }
}

/// The health-check endpoint: always 200 with the body `OK`.
pub fn handle_ping() -> (res: HttpResponse)
    ensures
        res.status == STATUS_OK,
        res.body@ == "OK"@,
        res.headers@.len() == 0,
{
    HttpResponse::with_body(STATUS_OK, String::from_str("OK"))
}

/// The existence-check endpoint is part of the surface but unimplemented: it
/// answers 500 for every hostname.
pub fn handle_exists(host: &str) -> (res: HttpResponse)
    ensures
        res.status == STATUS_INTERNAL_SERVER_ERROR,
        res.body@.len() == 0,
        res.headers@.len() == 0,
{
    let _ = host;
    HttpResponse::with_status(STATUS_INTERNAL_SERVER_ERROR)
}

} // verus!

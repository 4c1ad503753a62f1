//! The HTTP response model: a status code, a body, and a header list, with the
//! uniform cross-origin header that every response must carry.

use vstd::prelude::*;

verus! {

/// The HTTP status codes this service answers with.
pub const STATUS_OK: u16 = 200;

pub const STATUS_BAD_REQUEST: u16 = 400;

pub const STATUS_NOT_FOUND: u16 = 404;

pub const STATUS_INTERNAL_SERVER_ERROR: u16 = 500;

/// A response as the service decides it: the transport layer only has to copy
/// these fields onto the wire.
pub struct HttpResponse {
    pub status: u16,
    pub body: String,
    pub headers: Vec<(String, String)>,
}

/// Whether the response carries the permissive cross-origin header.
pub open spec fn has_cors_header(r: HttpResponse) -> bool {
    exists|i: int|
        0 <= i < r.headers@.len() && r.headers@[i].0@ == "Access-Control-Allow-Origin"@
            && r.headers@[i].1@ == "*"@
}

impl HttpResponse {
    /// A response with the given status, an empty body and no headers.
    pub fn with_status(status: u16) -> (r: HttpResponse)
        ensures
            r.status == status,
            r.body@.len() == 0,
            r.headers@.len() == 0,
    {
        HttpResponse { status, body: String::new(), headers: Vec::new() }
    }

    /// A response with the given status and body and no headers.
    pub fn with_body(status: u16, body: String) -> (r: HttpResponse)
        ensures
            r.status == status,
            r.body@ == body@,
            r.headers@.len() == 0,
    {
        HttpResponse { status, body, headers: Vec::new() }
    }
}

/// Appends `Access-Control-Allow-Origin: *` to the response's headers and
/// changes nothing else. Applied to every response, success or failure, as the
/// last step before it leaves the service.
pub fn add_cors_header(r: HttpResponse) -> (res: HttpResponse)
    ensures
        res.status == r.status,
        res.body@ == r.body@,
        res.headers@.len() == r.headers@.len() + 1,
        forall|i: int| 0 <= i < r.headers@.len() ==> res.headers@[i] == r.headers@[i],
        has_cors_header(res),
{
    let HttpResponse { status, body, mut headers } = r;
    let name = String::from_str("Access-Control-Allow-Origin");
    let value = String::from_str("*");
    headers.push((name, value));
    let res = HttpResponse { status, body, headers };
    proof {
        let last = res.headers@.len() - 1;
        assert(res.headers@[last].0@ == "Access-Control-Allow-Origin"@);
        assert(res.headers@[last].1@ == "*"@);
    }
    res
}

} // verus!

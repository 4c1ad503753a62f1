use rand::SeedableRng;
use dnsfront::handler::{handle_exists, handle_ping, resolve_request_begin, resolve_request_finish,
    LookupOutcome, ResolveStep};
use dnsfront::query::ResolveQuery;
use dnsfront::response::add_cors_header;
use dnsfront::shape::shape;

fn rng() -> rand::rngs::SmallRng {
    rand::rngs::SmallRng::seed_from_u64(7)
}

fn five_addresses() -> Vec<String> {
    vec![
        "10.0.0.1".to_string(),
        "10.0.0.2".to_string(),
        "10.0.0.3".to_string(),
        "10.0.0.4".to_string(),
        "10.0.0.5".to_string(),
    ]
}

#[test]
fn shape_truncates_without_shuffle() {
    let q = ResolveQuery { n: 3, r: 0 };
    let out = shape(five_addresses(), &q, &mut rng());
    assert_eq!(
        out,
        vec!["10.0.0.1".to_string(), "10.0.0.2".to_string(), "10.0.0.3".to_string()]
    );
}

#[test]
fn finish_joins_truncated_in_order() {
    let q = ResolveQuery { n: 3, r: 0 };
    let res = resolve_request_finish(&q, LookupOutcome::Addresses(five_addresses()), &mut rng());
    assert_eq!(res.status, 200);
    assert_eq!(res.body, "10.0.0.1\n10.0.0.2\n10.0.0.3");
}

#[test]
fn shape_shuffles_truncated_prefix() {
    let q = ResolveQuery { n: 3, r: 1 };
    let mut generator = rng();
    let mut seen: Vec<Vec<String>> = Vec::new();
    for _ in 0..40 {
        let out = shape(five_addresses(), &q, &mut generator);
        assert_eq!(out.len(), 3);
        let mut sorted = out.clone();
        sorted.sort();
        assert_eq!(
            sorted,
            vec!["10.0.0.1".to_string(), "10.0.0.2".to_string(), "10.0.0.3".to_string()]
        );
        if !seen.contains(&out) {
            seen.push(out);
        }
    }
    assert!(seen.len() >= 2);
}

#[test]
fn finish_empty_answer_is_not_found() {
    let q = ResolveQuery { n: 8, r: 1 };
    let res = resolve_request_finish(&q, LookupOutcome::Addresses(Vec::new()), &mut rng());
    assert_eq!(res.status, 404);
    assert_eq!(res.body, "nx");
}

#[test]
fn finish_transport_failure_is_server_error() {
    let q = ResolveQuery { n: 8, r: 1 };
    let res = resolve_request_finish(&q, LookupOutcome::TransportFailure, &mut rng());
    assert!(res.status >= 500 && res.status <= 599);
    assert_eq!(res.body, "");
}

#[test]
fn finish_zero_limit_keeps_nothing() {
    let q = ResolveQuery { n: 0, r: 1 };
    let res = resolve_request_finish(&q, LookupOutcome::Addresses(five_addresses()), &mut rng());
    assert_eq!(res.status, 200);
    assert_eq!(res.body, "");
}

#[test]
fn begin_rejects_invalid_host_without_lookup() {
    match resolve_request_begin("bad_host", "") {
        ResolveStep::Reject(resp) => {
            assert_eq!(resp.status, 400);
            assert_eq!(resp.body, "");
        },
        ResolveStep::Lookup(_) => panic!("an invalid hostname must not reach the resolver"),
    }
}

#[test]
fn begin_rejects_malformed_query() {
    match resolve_request_begin("asd.o", "n=abc") {
        ResolveStep::Reject(resp) => assert_eq!(resp.status, 400),
        ResolveStep::Lookup(_) => panic!("a malformed limit must be a client error"),
    }
}

#[test]
fn begin_accepts_valid_request() {
    match resolve_request_begin("asd.o", "n=2&r=0") {
        ResolveStep::Lookup(q) => assert_eq!(q, ResolveQuery { n: 2, r: 0 }),
        ResolveStep::Reject(_) => panic!("a valid request must proceed to the lookup"),
    }
}

#[test]
fn exists_route_always_fails() {
    for host in ["asd.o", "bad_host", "", "a.b"] {
        let res = handle_exists(host);
        assert!(res.status >= 500 && res.status <= 599);
    }
}

#[test]
fn ping_answers_ok() {
    let res = handle_ping();
    assert_eq!(res.status, 200);
    assert_eq!(res.body, "OK");
}

#[test]
fn every_response_carries_cors_header() {
    let q = ResolveQuery { n: 8, r: 1 };
    let responses = vec![
        handle_ping(),
        handle_exists("asd.o"),
        resolve_request_finish(&q, LookupOutcome::Addresses(five_addresses()), &mut rng()),
        resolve_request_finish(&q, LookupOutcome::Addresses(Vec::new()), &mut rng()),
        resolve_request_finish(&q, LookupOutcome::TransportFailure, &mut rng()),
    ];
    for res in responses {
        let sent = add_cors_header(res);
        assert!(sent.headers.iter().any(|(name, value)| name == "Access-Control-Allow-Origin"
            && value == "*"));
    }
}

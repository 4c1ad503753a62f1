use dnsfront::config::{parse_name_servers, IpAddress, Ipv4Address, Ipv6Address, NameServer};
use dnsfront::query::{parse_query, ResolveQuery};

#[test]
fn query_defaults_on_empty_string() {
    assert_eq!(parse_query(""), Some(ResolveQuery { n: 8, r: 1 }));
}

#[test]
fn query_reads_both_fields() {
    assert_eq!(parse_query("n=3&r=0"), Some(ResolveQuery { n: 3, r: 0 }));
    assert_eq!(parse_query("r=0&n=3"), Some(ResolveQuery { n: 3, r: 0 }));
    assert_eq!(parse_query("n=255"), Some(ResolveQuery { n: 255, r: 1 }));
}

#[test]
fn query_ignores_unknown_keys() {
    assert_eq!(parse_query("x=5&y"), Some(ResolveQuery { n: 8, r: 1 }));
}

#[test]
fn query_last_occurrence_wins() {
    assert_eq!(parse_query("n=3&n=4"), Some(ResolveQuery { n: 4, r: 1 }));
}

#[test]
fn query_rejects_malformed_values() {
    assert_eq!(parse_query("n=abc"), None);
    assert_eq!(parse_query("n="), None);
    assert_eq!(parse_query("n"), None);
    assert_eq!(parse_query("n=256"), None);
    assert_eq!(parse_query("r=x"), None);
}

#[test]
fn name_servers_skip_malformed_entries() {
    // One well-formed entry and one without a port: exactly one server remains.
    let servers = parse_name_servers("127.0.0.1:53,10.0.0.1");
    assert_eq!(
        servers,
        vec![NameServer { ip: IpAddress::V4(Ipv4Address { a: 127, b: 0, c: 0, d: 1 }), port: 53 }]
    );
}

#[test]
fn name_servers_default_entry() {
    let servers = parse_name_servers("127.0.0.1:5353");
    assert_eq!(servers.len(), 1);
    assert_eq!(servers[0].port, 5353);
    assert_eq!(servers[0].ip, IpAddress::V4(Ipv4Address { a: 127, b: 0, c: 0, d: 1 }));
}

#[test]
fn name_servers_all_malformed_yield_none() {
    let servers = parse_name_servers("localhost,1.2.3:53,1.2.3.4.5:53,1.2.3.4:,1.2.3.4:65536,:53");
    assert_eq!(servers, Vec::new());
}

#[test]
fn name_servers_keep_order() {
    let servers = parse_name_servers("8.8.8.8:53,oops,9.9.9.9:153");
    assert_eq!(
        servers,
        vec![
            NameServer { ip: IpAddress::V4(Ipv4Address { a: 8, b: 8, c: 8, d: 8 }), port: 53 },
            NameServer { ip: IpAddress::V4(Ipv4Address { a: 9, b: 9, c: 9, d: 9 }), port: 153 },
        ]
    );
}

#[test]
fn name_servers_port_like_std() {
    // The standard library accepts a leading plus on an unsigned numeral.
    let servers = parse_name_servers("1.2.3.4:+53");
    assert_eq!(servers.len(), 1);
    assert_eq!(servers[0].port, 53);
    // Leading zeros on an octet are rejected, as the standard library does.
    assert_eq!(parse_name_servers("01.2.3.4:53"), Vec::new());
    // Leading zeros on the port are accepted, as the standard library does.
    let padded = parse_name_servers("1.2.3.4:053");
    assert_eq!(padded[0].port, 53);
}

#[test]
fn name_servers_accept_ipv6_entries() {
    // The port is everything after the last colon; the rest must be an IPv6
    // literal.
    let servers = parse_name_servers("::1:53,fe80::8:53");
    assert_eq!(
        servers,
        vec![
            NameServer {
                ip: IpAddress::V6(Ipv6Address {
                    g0: 0, g1: 0, g2: 0, g3: 0, g4: 0, g5: 0, g6: 0, g7: 1,
                }),
                port: 53,
            },
            NameServer {
                ip: IpAddress::V6(Ipv6Address {
                    g0: 0xfe80, g1: 0, g2: 0, g3: 0, g4: 0, g5: 0, g6: 0, g7: 8,
                }),
                port: 53,
            },
        ]
    );
    // A bare IPv6 address whose trailing group swallows the port does not
    // leave a well-formed entry behind.
    assert_eq!(parse_name_servers("fe80::"), Vec::new());
}

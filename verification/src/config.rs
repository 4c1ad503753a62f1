//! Name-server configuration: a comma-separated list of `ip:port` entries,
//! read at startup. Malformed entries are skipped, never fatal: they only
//! shrink the effective server list.

use vstd::prelude::*;
use crate::text::{last_sep, lemma_last_sep, parse_bounded, spec_parse_bounded, spec_split,
    split_str};

verus! {

/// An IPv4 address as its four octets.
#[derive(PartialEq, Eq, Structural, Clone, Copy, Debug)]
pub struct Ipv4Address {
    pub a: u8,
    pub b: u8,
    pub c: u8,
    pub d: u8,
}

/// An IPv6 address as its eight sixteen-bit groups.
#[derive(PartialEq, Eq, Structural, Clone, Copy, Debug)]
pub struct Ipv6Address {
    pub g0: u16,
    pub g1: u16,
    pub g2: u16,
    pub g3: u16,
    pub g4: u16,
    pub g5: u16,
    pub g6: u16,
    pub g7: u16,
}

/// An IP address of either family.
#[derive(PartialEq, Eq, Structural, Clone, Copy, Debug)]
pub enum IpAddress {
    V4(Ipv4Address),
    V6(Ipv6Address),
}

/// One upstream name server: an address and a port.
#[derive(PartialEq, Eq, Structural, Clone, Copy, Debug)]
pub struct NameServer {
    pub ip: IpAddress,
    pub port: u16,
}

/// The sixteen-bit groups of `s` read as an IPv6 literal, or `None` when `s`
/// is not one. The IPv6 textual grammar is the standard library's; whether a
/// string belongs to it, and which groups it denotes, depend on the characters
/// alone.
pub uninterp spec fn ipv6_groups_of(s: Seq<char>) -> Option<Seq<u16>>;

/// Relies on the standard library's IPv6 address parser (`Ipv6Addr`'s
/// `FromStr`) and on `Ipv6Addr::segments`, which hands the parsed address back
/// as its eight groups.
#[verifier::external_body]
fn parse_ipv6(s: &str) -> (res: Option<Ipv6Address>)
    ensures
        match res {
            Some(a) => ipv6_groups_of(s@) == Some(
                seq![a.g0, a.g1, a.g2, a.g3, a.g4, a.g5, a.g6, a.g7],
            ),
            None => ipv6_groups_of(s@) is None,
        },
{
    match s.parse::<core::net::Ipv6Addr>() {
        Ok(addr) => {
            let g = addr.segments();
            Some(Ipv6Address {
                g0: g[0], g1: g[1], g2: g[2], g3: g[3],
                g4: g[4], g5: g[5], g6: g[6], g7: g[7],
            })
        },
        Err(_) => None,
    }
}

/// One dotted-quad part read as an octet: one to three digits, no leading zero
/// on a multi-digit part, at most 255.
pub open spec fn spec_parse_octet(s: Seq<char>) -> Option<u8> {
    if s.len() > 1 && s[0] == '0' {
        None
    } else {
        match spec_parse_bounded(s, 255) {
            Some(v) => Some(v as u8),
            None => None,
        }
    }
}

/// Reads one dotted-quad part as an octet.
fn parse_octet(s: &str) -> (res: Option<u8>)
    ensures
        res == spec_parse_octet(s@),
{
    if s.unicode_len() > 1 && s.get_char(0) == '0' {
        return None;
    }
    match parse_bounded(s, 255) {
        Some(v) => Some(v as u8),
        None => None,
    }
}

/// `s` read as a dotted-quad IPv4 address: exactly four octets separated by
/// dots.
pub open spec fn spec_parse_ipv4(s: Seq<char>) -> Option<Ipv4Address> {
    let parts = spec_split(s, '.');
    if parts.len() != 4 {
        None
    } else {
        match (spec_parse_octet(parts[0]), spec_parse_octet(parts[1]), spec_parse_octet(parts[2]),
        spec_parse_octet(parts[3])) {
            (Some(a), Some(b), Some(c), Some(d)) => Some(Ipv4Address { a, b, c, d }),
            _ => None,
        }
    }
}

/// Reads `s` as a dotted-quad IPv4 address.
pub fn parse_ipv4(s: &str) -> (res: Option<Ipv4Address>)
    ensures
        res == spec_parse_ipv4(s@),
{
    let parts = split_str(s, '.');
    proof {
        assert(parts@.len() == parts@.map_values(|t: &str| t@).len());
    }
    if parts.len() != 4 {
        return None;
    }
    proof {
        assert forall|i: int| 0 <= i < 4 implies parts@[i]@ == spec_split(s@, '.')[i] by {
            assert(parts@.map_values(|t: &str| t@)[i] == parts@[i]@);
        }
    }
    let a = match parse_octet(parts[0]) {
        Some(v) => v,
        None => {
            return None;
        },
    };
    let b = match parse_octet(parts[1]) {
        Some(v) => v,
        None => {
            return None;
        },
    };
    let c = match parse_octet(parts[2]) {
        Some(v) => v,
        None => {
            return None;
        },
    };
    let d = match parse_octet(parts[3]) {
        Some(v) => v,
        None => {
            return None;
        },
    };
    Some(Ipv4Address { a, b, c, d })
}

/// `s` read as an IP address, the dotted-quad form first, the IPv6 grammar
/// otherwise, as the standard library reads an address of either family.
pub open spec fn spec_parse_ip(s: Seq<char>) -> Option<IpAddress> {
    match spec_parse_ipv4(s) {
        Some(v4) => Some(IpAddress::V4(v4)),
        None => match ipv6_groups_of(s) {
            Some(g) => Some(
                IpAddress::V6(
                    Ipv6Address {
                        g0: g[0],
                        g1: g[1],
                        g2: g[2],
                        g3: g[3],
                        g4: g[4],
                        g5: g[5],
                        g6: g[6],
                        g7: g[7],
                    },
                ),
            ),
            None => None,
        },
    }
}

/// Reads `s` as an IP address of either family.
pub fn parse_ip(s: &str) -> (res: Option<IpAddress>)
    ensures
        res == spec_parse_ip(s@),
{
    match parse_ipv4(s) {
        Some(v4) => Some(IpAddress::V4(v4)),
        None => match parse_ipv6(s) {
            Some(v6) => Some(IpAddress::V6(v6)),
            None => None,
        },
    }
}

/// A port numeral as the standard library reads an unsigned number: an
/// optional leading `+`, then at least one digit, value at most 65535.
pub open spec fn spec_parse_port(s: Seq<char>) -> Option<u16> {
    let digits = if s.len() > 0 && s[0] == '+' {
        s.skip(1)
    } else {
        s
    };
    match spec_parse_bounded(digits, 65535) {
        Some(v) => Some(v as u16),
        None => None,
    }
}

/// Reads a port number.
pub fn parse_port(s: &str) -> (res: Option<u16>)
    ensures
        res == spec_parse_port(s@),
{
    let n = s.unicode_len();
    let digits = if n > 0 && s.get_char(0) == '+' {
        s.substring_char(1, n)
    } else {
        proof {
            assert(s@.skip(0) =~= s@);
        }
        s
    };
    proof {
        if n > 0 && s@[0] == '+' {
            assert(s@.subrange(1, n as int) =~= s@.skip(1));
        }
    }
    match parse_bounded(digits, 65535) {
        Some(v) => Some(v as u16),
        None => None,
    }
}

/// One configuration entry: everything before the last `:` is the address,
/// everything after it the port. An entry without a `:`, or whose address or
/// port does not parse, is worth nothing.
pub open spec fn spec_parse_name_server(entry: Seq<char>) -> Option<NameServer> {
    let j = last_sep(entry, ':');
    if j < 0 {
        None
    } else {
        match (spec_parse_ip(entry.take(j)), spec_parse_port(entry.skip(j + 1))) {
            (Some(ip), Some(port)) => Some(NameServer { ip, port }),
            _ => None,
        }
    }
}

/// Reads one `ip:port` configuration entry.
pub fn parse_name_server(entry: &str) -> (res: Option<NameServer>)
    ensures
        res == spec_parse_name_server(entry@),
{
    let n = entry.unicode_len();
    let mut j: usize = n;
    while j > 0 && entry.get_char(j - 1) != ':'
        invariant
            0 <= j <= n,
            n == entry@.len(),
            forall|t: int| j <= t < n ==> entry@[t] != ':',
        decreases j,
    {
        j -= 1;
    }
    proof {
        lemma_last_sep(entry@, ':');
    }
    if j == 0 {
        proof {
            assert(last_sep(entry@, ':') < 0);
        }
        return None;
    }
    proof {
        assert(entry@[j - 1] == ':');
        assert(last_sep(entry@, ':') == j - 1);
    }
    let ip_str = entry.substring_char(0, j - 1);
    let port_str = entry.substring_char(j, n);
    proof {
        assert(entry@.subrange(0, j - 1) =~= entry@.take(j - 1));
        assert(entry@.subrange(j as int, n as int) =~= entry@.skip(j as int));
    }
    match (parse_ip(ip_str), parse_port(port_str)) {
        (Some(ip), Some(port)) => Some(NameServer { ip, port }),
        _ => None,
    }
}

/// The entries that parse, in order, the rest skipped.
pub open spec fn keep_parsed(entries: Seq<Seq<char>>) -> Seq<NameServer>
    decreases entries.len(),
{
    if entries.len() == 0 {
        Seq::empty()
    } else {
        let rest = keep_parsed(entries.drop_first());
        match spec_parse_name_server(entries[0]) {
            Some(ns) => seq![ns] + rest,
            None => rest,
        }
    }
}

/// The whole configuration string parsed: split on commas, each well-formed
/// `ip:port` entry kept, each malformed one silently skipped.
pub open spec fn spec_parse_name_servers(s: Seq<char>) -> Seq<NameServer> {
    keep_parsed(spec_split(s, ','))
}

/// Parses the comma-separated name-server configuration. An entry that is not
/// a well-formed `ip:port` pair only shrinks the result; if every entry is
/// malformed the resolver is configured with no servers at all.
pub fn parse_name_servers(s: &str) -> (res: Vec<NameServer>)
    ensures
        res@ == spec_parse_name_servers(s@),
{
    let parts = split_str(s, ',');
    let ghost segs = spec_split(s@, ',');
    let mut res: Vec<NameServer> = Vec::new();
    let mut idx: usize = 0;
    proof {
        assert(segs.skip(0) =~= segs);
        assert(res@ + keep_parsed(segs) =~= keep_parsed(segs));
    }
    while idx < parts.len()
        invariant
            0 <= idx <= parts@.len(),
            parts@.map_values(|t: &str| t@) == segs,
            spec_parse_name_servers(s@) == res@ + keep_parsed(segs.skip(idx as int)),
        decreases parts@.len() - idx,
    {
        let part = parts[idx];
        proof {
            assert(parts@.map_values(|t: &str| t@)[idx as int] == part@);
            assert(segs.skip(idx as int)[0] == segs[idx as int]);
            assert(segs.skip(idx as int).drop_first() =~= segs.skip(idx as int + 1));
        }
        match parse_name_server(part) {
            Some(ns) => {
                proof {
                    assert((res@.push(ns)) + keep_parsed(segs.skip(idx as int + 1)) =~= res@ + (
                    seq![ns] + keep_parsed(segs.skip(idx as int + 1))));
                }
                res.push(ns);
            },
            None => {
            },
        }
        idx += 1;
    }
    proof {
        assert(segs.skip(parts@.len() as int) =~= Seq::<Seq<char>>::empty());
        assert(res@ + keep_parsed(segs.skip(parts@.len() as int)) =~= res@);
    }
    res
}

} // verus!

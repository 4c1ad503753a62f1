//! Per-request query options: the result limit `n` and the shuffle flag `r`,
//! read from the request's raw query string.

use vstd::prelude::*;
use crate::text::{first_sep, lemma_first_sep, parse_bounded, spec_parse_bounded, spec_split,
    split_str};

verus! {

/// The two request-scoped knobs. `n` caps how many addresses are returned;
/// `r` is a byte flag where zero means "preserve resolver order" and any
/// nonzero value means "shuffle".
#[derive(PartialEq, Eq, Structural, Clone, Copy, Debug)]
pub struct ResolveQuery {
    pub n: u8,
    pub r: u8,
}

impl Default for ResolveQuery {
    /// Without query parameters the service returns at most 8 addresses,
    /// shuffled.
    fn default() -> (r: Self)
        ensures
            r.n == 8 && r.r == 1,
    {
        ResolveQuery { n: 8, r: 1 }
    }
}

/// One `key=value` segment applied to the running `(n, r)` state: `n` and `r`
/// must carry a decimal byte value, any other key is ignored, and a missing
/// `=` leaves the value empty.
pub open spec fn apply_segment(seg: Seq<char>, n: u8, r: u8) -> Option<(u8, u8)> {
    let k = first_sep(seg, '=');
    let key = seg.take(k as int);
    let val = if k == seg.len() {
        Seq::<char>::empty()
    } else {
        seg.skip(k as int + 1)
    };
    if key == seq!['n'] {
        match spec_parse_bounded(val, 255) {
            Some(v) => Some((v as u8, r)),
            None => None,
        }
    } else if key == seq!['r'] {
        match spec_parse_bounded(val, 255) {
            Some(v) => Some((n, v as u8)),
            None => None,
        }
    } else {
        Some((n, r))
    }
}

/// Folds the query segments over the default state, left to right; a later
/// occurrence of a key overrides an earlier one.
pub open spec fn fold_segments(segs: Seq<Seq<char>>, n: u8, r: u8) -> Option<ResolveQuery>
    decreases segs.len(),
{
    if segs.len() == 0 {
        Some(ResolveQuery { n, r })
    } else {
        match apply_segment(segs[0], n, r) {
            Some((n2, r2)) => fold_segments(segs.drop_first(), n2, r2),
            None => None,
        }
    }
}

/// The query string parsed into options: `&`-separated `key=value` segments
/// over the defaults `n=8`, `r=1`; `None` when `n` or `r` carries anything but
/// a decimal number that fits a byte.
pub open spec fn spec_parse_query(q: Seq<char>) -> Option<ResolveQuery> {
    fold_segments(spec_split(q, '&'), 8, 1)
}

/// Parses the raw query string into the request's options, or `None` for a
/// malformed value, which the handler answers with a client error.
pub fn parse_query(q: &str) -> (res: Option<ResolveQuery>)
    ensures
        res == spec_parse_query(q@),
{
    let parts = split_str(q, '&');
    let ghost segs = spec_split(q@, '&');
    let mut n: u8 = 8;
    let mut r: u8 = 1;
    let mut idx: usize = 0;
    proof {
        assert(segs.skip(0) =~= segs);
    }
    while idx < parts.len()
        invariant
            0 <= idx <= parts@.len(),
            parts@.map_values(|t: &str| t@) == segs,
            spec_parse_query(q@) == fold_segments(segs.skip(idx as int), n, r),
        decreases parts@.len() - idx,
    {
        let part = parts[idx];
        proof {
            assert(parts@.map_values(|t: &str| t@)[idx as int] == part@);
            assert(segs.skip(idx as int)[0] == segs[idx as int]);
            assert(segs.skip(idx as int).drop_first() =~= segs.skip(idx as int + 1));
        }
        let plen = part.unicode_len();
        let mut k: usize = 0;
        while k < plen && part.get_char(k) != '='
            invariant
                0 <= k <= plen,
                plen == part@.len(),
                forall|j: int| 0 <= j < k ==> part@[j] != '=',
            decreases plen - k,
        {
            k += 1;
        }
        proof {
            lemma_first_sep(part@, '=');
            if k < plen {
                assert(part@[k as int] == '=');
            }
            assert(first_sep(part@, '=') == k);
        }
        let is_n = k == 1 && part.get_char(0) == 'n';
        let is_r = k == 1 && part.get_char(0) == 'r';
        proof {
            let key = part@.take(k as int);
            assert(key.len() == k);
            if is_n {
                assert(key =~= seq!['n']);
            } else {
                assert(key != seq!['n']) by {
                    if key == seq!['n'] {
                        assert(key.len() == 1);
                        assert(key[0] == 'n');
                        assert(part@[0] == 'n');
                    }
                }
            }
            if is_r {
                assert(key =~= seq!['r']);
            } else {
                assert(key != seq!['r']) by {
                    if key == seq!['r'] {
                        assert(key.len() == 1);
                        assert(key[0] == 'r');
                        assert(part@[0] == 'r');
                    }
                }
            }
        }
        if is_n || is_r {
            let val = if k < plen {
                part.substring_char(k + 1, plen)
            } else {
                proof {
                    reveal_strlit("");
                    assert(""@ =~= Seq::<char>::empty());
                }
                ""
            };
            match parse_bounded(val, 255) {
                Some(v) => {
                    if is_n {
                        n = v as u8;
                    } else {
                        r = v as u8;
                    }
                },
                None => {
                    return None;
                },
            }
        }
        idx += 1;
    }
    proof {
        assert(segs.skip(parts@.len() as int) =~= Seq::<Seq<char>>::empty());
    }
    Some(ResolveQuery { n, r })
}

} // verus!

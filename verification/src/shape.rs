//! Result shaping: truncate the resolver's address list to the request's
//! limit, then optionally shuffle the truncated list.

use vstd::prelude::*;
use rand::seq::SliceRandom;
use crate::query::ResolveQuery;

verus! {

/// The process-wide pseudo-random generator the shuffle draws from. One
/// instance is seeded at startup and shared, under a lock, by all requests.
#[verifier::external_type_specification]
#[verifier::external_body]
pub struct ExSmallRng(rand::rngs::SmallRng);

/// Relies on rand's `SliceRandom::shuffle`: a Fisher-Yates pass of in-place
/// swaps, so the slice afterwards holds exactly the same strings, rearranged.
/// Which arrangement comes out depends on the generator's state.
#[verifier::external_body]
fn shuffle_strings(v: &mut Vec<String>, rng: &mut rand::rngs::SmallRng)
    ensures
        final(v).deep_view().to_multiset() == old(v).deep_view().to_multiset(),
        final(v)@.len() == old(v)@.len(),
{
    v.as_mut_slice().shuffle(rng);
}

/// How many addresses shaping keeps: the request's limit, or the whole list
/// when it is shorter.
pub open spec fn kept_len(n: u8, total: nat) -> int {
    if (n as int) <= total {
        n as int
    } else {
        total as int
    }
}

/// Shapes the resolver's answer for one request: keeps the first `q.n`
/// addresses in resolver order, then, when `q.r` is nonzero, shuffles those
/// kept addresses. The result is always a rearrangement of the kept prefix,
/// and with the shuffle switched off it is that prefix itself.
pub fn shape(addrs: Vec<String>, q: &ResolveQuery, rng: &mut rand::rngs::SmallRng) -> (res: Vec<
    String,
>)
    ensures
        res@.len() == kept_len(q.n, addrs@.len() as nat),
        res.deep_view().to_multiset() == addrs.deep_view().take(
            kept_len(q.n, addrs@.len() as nat),
        ).to_multiset(),
        q.r == 0 ==> res.deep_view() == addrs.deep_view().take(kept_len(q.n, addrs@.len() as nat)),
{
    let ghost orig = addrs.deep_view();
    let ghost keep = kept_len(q.n, addrs@.len() as nat);
    let mut v = addrs;
    if (q.n as usize) < v.len() {
        v.truncate(q.n as usize);
    }
    proof {
        assert(v.deep_view() =~= orig.take(keep));
    }
    if q.r != 0 {
        shuffle_strings(&mut v, rng);
    }
    v
}

} // verus!

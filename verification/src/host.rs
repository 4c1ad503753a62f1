//! Hostname validation: the syntax gate that every resolution request must
//! pass before the resolver is consulted.

use vstd::prelude::*;

verus! {

/// Whether `c` is an ASCII alphanumeric character.
pub open spec fn is_alnum_char(c: char) -> bool {
    (('0' as u32) <= (c as u32) && (c as u32) <= ('9' as u32)) || (('A' as u32) <= (c as u32) && (c
        as u32) <= ('Z' as u32)) || (('a' as u32) <= (c as u32) && (c as u32) <= ('z' as u32))
}

/// Whether `c` may appear in a hostname at all.
pub open spec fn is_host_char(c: char) -> bool {
    c == '.' || c == '-' || is_alnum_char(c)
}

/// A syntactically acceptable hostname: 3 to 255 characters, only ASCII
/// alphanumerics, `.` and `-`; no `.` directly after a `.` or a `-`; no `-`
/// directly after a `.`; at least one `.`; and neither end is a `.` or a `-`.
/// Consecutive hyphens are deliberately permitted.
pub open spec fn valid_host(s: Seq<char>) -> bool {
    &&& 3 <= s.len() && s.len() <= 255
    &&& forall|i: int| 0 <= i < s.len() ==> is_host_char(#[trigger] s[i])
    &&& forall|i: int|
        1 <= i < s.len() ==> ((#[trigger] s[i]) == '.' ==> s[i - 1] != '.' && s[i - 1] != '-')
    &&& forall|i: int| 1 <= i < s.len() ==> ((#[trigger] s[i]) == '-' ==> s[i - 1] != '.')
    &&& exists|i: int| 0 <= i < s.len() && s[i] == '.'
    &&& s[0] != '.' && s[0] != '-'
    &&& s[s.len() - 1] != '.' && s[s.len() - 1] != '-'
}

/// Decides `valid_host` for `s`: true exactly when the hostname may be handed
/// to the resolver.
pub fn validate_host(s: &str) -> (r: bool)
    ensures
        r == valid_host(s@),
{
    let n = s.unicode_len();
    if n < 3 || n > 255 {
        return false;
    }
    let mut prev_c: char = '.';
    let mut has_dot = false;
    let mut i: usize = 0;
    while i < n
        invariant
            0 <= i <= n,
            n == s@.len(),
            3 <= n <= 255,
            prev_c == if i == 0 { '.' } else { s@[i as int - 1] },
            has_dot == exists|j: int| 0 <= j < i && s@[j] == '.',
            forall|j: int| 0 <= j < i ==> is_host_char(#[trigger] s@[j]),
            forall|j: int| 1 <= j < i ==> ((#[trigger] s@[j]) == '.' ==> s@[j - 1] != '.' && s@[j - 1] != '-'),
            forall|j: int| 1 <= j < i ==> ((#[trigger] s@[j]) == '-' ==> s@[j - 1] != '.'),
            i > 0 ==> s@[0] != '.' && s@[0] != '-',
        decreases n - i,
    {
        let c = s.get_char(i);
        let cu = c as u32;
        if c == '.' {
            if prev_c == '.' || prev_c == '-' {
                return false;
            }
            has_dot = true;
        } else if c == '-' {
            if prev_c == '.' {
                return false;
            }
        } else if !((('0' as u32) <= cu && cu <= ('9' as u32)) || (('A' as u32) <= cu && cu <= ('Z'
            as u32)) || (('a' as u32) <= cu && cu <= ('z' as u32))) {
            assert(!is_host_char(s@[i as int]));
            return false;
        }
        prev_c = c;
        i += 1;
    }
    if prev_c == '.' || prev_c == '-' || !has_dot {
        return false;
    }
    true
}

/// Any string shorter than 3 or longer than 255 characters is rejected.
pub proof fn lemma_invalid_length(s: Seq<char>)
    requires
        s.len() < 3 || s.len() > 255,
    ensures
        !valid_host(s),
{
}

/// A string of nothing but ASCII alphanumeric characters holds no dot, so it is
/// rejected: single-label names are never valid.
pub proof fn lemma_alnum_only_invalid(s: Seq<char>)
    requires
        forall|i: int| 0 <= i < s.len() ==> is_alnum_char(#[trigger] s[i]),
    ensures
        !valid_host(s),
{
    if valid_host(s) {
        let i = choose|i: int| 0 <= i < s.len() && s[i] == '.';
        assert(is_alnum_char(s[i]));
        assert(false);
    }
}

} // verus!

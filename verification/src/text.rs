//! Character-level text utilities shared by the parsers: decimal numbers,
//! splitting on a separator, and joining lines.

use vstd::prelude::*;

verus! {

/// Whether `c` is an ASCII decimal digit.
pub open spec fn is_digit_char(c: char) -> bool {
    ('0' as u32) <= (c as u32) && (c as u32) <= ('9' as u32)
}

/// The numeric value of a digit character.
pub open spec fn digit_val(c: char) -> nat
    recommends
        is_digit_char(c),
{
    ((c as u32) - ('0' as u32)) as nat
}

/// Whether every character of `s` is an ASCII decimal digit.
pub open spec fn all_digits(s: Seq<char>) -> bool {
    forall|i: int| 0 <= i < s.len() ==> is_digit_char(#[trigger] s[i])
}

/// The value of `s` read as a decimal numeral (most significant digit first).
pub open spec fn dec_value(s: Seq<char>) -> nat
    recommends
        all_digits(s),
    decreases s.len(),
{
    if s.len() == 0 {
        0
    } else {
        dec_value(s.drop_last()) * 10 + digit_val(s.last())
    }
}

/// Appending digits never makes a numeral smaller: the value of a prefix is a
/// lower bound on the value of the whole.
proof fn lemma_dec_value_prefix_le(s: Seq<char>, j: int)
    requires
        0 <= j <= s.len(),
    ensures
        dec_value(s.take(j)) <= dec_value(s),
    decreases s.len() - j,
{
    if j == s.len() {
        assert(s.take(j) =~= s);
    } else {
        assert(s.take(j + 1).drop_last() =~= s.take(j));
        assert(s.take(j + 1).last() == s[j]);
        lemma_dec_value_prefix_le(s, j + 1);
    }
}

/// `s` read as a decimal number of at most `max`: `None` if `s` is empty, holds
/// a non-digit, or exceeds `max`.
pub open spec fn spec_parse_bounded(s: Seq<char>, max: nat) -> Option<nat> {
    if s.len() > 0 && all_digits(s) && dec_value(s) <= max {
        Some(dec_value(s))
    } else {
        None
    }
}

/// Reads `s` as a bounded decimal numeral.
pub fn parse_bounded(s: &str, max: u32) -> (res: Option<u32>)
    requires
        max <= 0xFFFF,
    ensures
        match res {
            Some(v) => spec_parse_bounded(s@, max as nat) == Some(v as nat),
            None => spec_parse_bounded(s@, max as nat) is None,
        },
{
    let n = s.unicode_len();
    if n == 0 {
        return None;
    }
    let mut acc: u32 = 0;
    let mut i: usize = 0;
    while i < n
        invariant
            0 <= i <= n,
            n == s@.len(),
            max <= 0xFFFF,
            all_digits(s@.take(i as int)),
            acc == dec_value(s@.take(i as int)),
            acc <= max,
        decreases n - i,
    {
        let c = s.get_char(i);
        let cu = c as u32;
        if cu < ('0' as u32) || cu > ('9' as u32) {
            assert(!is_digit_char(s@[i as int]));
            return None;
        }
        let d = cu - ('0' as u32);
        proof {
            assert(s@.take(i + 1).drop_last() =~= s@.take(i as int));
            assert(s@.take(i + 1).last() == s@[i as int]);
        }
        acc = acc * 10 + d;
        if acc > max {
            proof {
                lemma_dec_value_prefix_le(s@, i + 1);
                if all_digits(s@) {
                    assert(dec_value(s@) > max);
                }
            }
            return None;
        }
        i += 1;
    }
    proof {
        assert(s@.take(n as int) =~= s@);
    }
    Some(acc)
}

/// The index of the first occurrence of `sep` in `s`, or `s.len()` when `sep`
/// does not occur.
pub open spec fn first_sep(s: Seq<char>, sep: char) -> nat
    decreases s.len(),
{
    if s.len() == 0 {
        0
    } else if s[0] == sep {
        0
    } else {
        1 + first_sep(s.drop_first(), sep)
    }
}

/// What `first_sep` returns: the earliest position of `sep`, or the length.
pub proof fn lemma_first_sep(s: Seq<char>, sep: char)
    ensures
        first_sep(s, sep) <= s.len(),
        first_sep(s, sep) < s.len() ==> s[first_sep(s, sep) as int] == sep,
        forall|j: int| 0 <= j < first_sep(s, sep) ==> s[j] != sep,
    decreases s.len(),
{
    if s.len() > 0 && s[0] != sep {
        lemma_first_sep(s.drop_first(), sep);
        assert forall|j: int| 0 <= j < first_sep(s, sep) implies s[j] != sep by {
            if j > 0 {
                assert(s.drop_first()[j - 1] != sep);
            }
        }
    }
}

/// The index of the last occurrence of `sep` in `s`, or `-1` when `sep` does
/// not occur.
pub open spec fn last_sep(s: Seq<char>, sep: char) -> int
    decreases s.len(),
{
    if s.len() == 0 {
        -1
    } else if s.last() == sep {
        s.len() - 1
    } else {
        last_sep(s.drop_last(), sep)
    }
}

/// What `last_sep` returns: the latest position of `sep`, or `-1`.
pub proof fn lemma_last_sep(s: Seq<char>, sep: char)
    ensures
        -1 <= last_sep(s, sep) < s.len(),
        last_sep(s, sep) >= 0 ==> s[last_sep(s, sep)] == sep,
        forall|j: int| last_sep(s, sep) < j < s.len() ==> s[j] != sep,
    decreases s.len(),
{
    if s.len() > 0 && s.last() != sep {
        lemma_last_sep(s.drop_last(), sep);
        assert forall|j: int| last_sep(s, sep) < j < s.len() implies s[j] != sep by {
            if j < s.len() - 1 {
                assert(s.drop_last()[j] != sep);
            }
        }
    }
}

/// `s` split on `sep`: the pieces between occurrences, separators dropped. An
/// empty input yields one empty piece, as splitting does in Rust.
pub open spec fn spec_split(s: Seq<char>, sep: char) -> Seq<Seq<char>>
    decreases s.len(),
{
    let i = first_sep(s, sep);
    if i >= s.len() {
        seq![s]
    } else {
        seq![s.take(i as int)] + spec_split(s.skip(i as int + 1), sep)
    }
}

/// Splits `s` on `sep` into the pieces `spec_split` describes.
pub fn split_str<'a>(s: &'a str, sep: char) -> (parts: Vec<&'a str>)
    ensures
        parts@.map_values(|t: &'a str| t@) == spec_split(s@, sep),
{
    let n = s.unicode_len();
    let mut parts: Vec<&'a str> = Vec::new();
    let mut start: usize = 0;
    let mut i: usize = 0;
    proof {
        assert(s@.skip(0) =~= s@);
        assert(parts@.map_values(|t: &'a str| t@) + spec_split(s@, sep) =~= spec_split(s@, sep));
    }
    while i < n
        invariant
            0 <= start <= i <= n,
            n == s@.len(),
            forall|j: int| start <= j < i ==> s@[j] != sep,
            spec_split(s@, sep) == parts@.map_values(|t: &'a str| t@) + spec_split(
                s@.skip(start as int),
                sep,
            ),
        decreases n - i,
    {
        let c = s.get_char(i);
        if c == sep {
            let piece = s.substring_char(start, i);
            proof {
                let tail = s@.skip(start as int);
                lemma_first_sep(tail, sep);
                assert forall|j: int| 0 <= j < i - start implies tail[j] != sep by {
                    assert(tail[j] == s@[start + j]);
                }
                assert(tail[i - start] == sep);
                assert(first_sep(tail, sep) == i - start);
                assert(tail.take(i - start) =~= s@.subrange(start as int, i as int));
                assert(tail.skip(i - start + 1) =~= s@.skip(i + 1));
                assert(spec_split(tail, sep) == seq![piece@] + spec_split(s@.skip(i + 1), sep));
                assert((parts@.push(piece)).map_values(|t: &'a str| t@) =~= parts@.map_values(
                    |t: &'a str| t@,
                ) + seq![piece@]);
                assert(parts@.map_values(|t: &'a str| t@) + (seq![piece@] + spec_split(
                    s@.skip(i + 1),
                    sep,
                )) =~= (parts@.map_values(|t: &'a str| t@) + seq![piece@]) + spec_split(
                    s@.skip(i + 1),
                    sep,
                ));
            }
            parts.push(piece);
            start = i + 1;
        }
        i += 1;
    }
    let piece = s.substring_char(start, n);
    proof {
        let tail = s@.skip(start as int);
        lemma_first_sep(tail, sep);
        assert forall|j: int| 0 <= j < tail.len() implies tail[j] != sep by {
            assert(tail[j] == s@[start + j]);
        }
        assert(first_sep(tail, sep) == tail.len());
        assert(tail =~= s@.subrange(start as int, n as int));
        assert(spec_split(tail, sep) == seq![tail]);
        assert((parts@.push(piece)).map_values(|t: &'a str| t@) =~= parts@.map_values(
            |t: &'a str| t@,
        ) + seq![piece@]);
    }
    parts.push(piece);
    parts
}

/// The pieces joined with a newline between neighbours and no trailing newline.
pub open spec fn spec_join_lines(parts: Seq<Seq<char>>) -> Seq<char>
    decreases parts.len(),
{
    if parts.len() == 0 {
        Seq::empty()
    } else if parts.len() == 1 {
        parts[0]
    } else {
        spec_join_lines(parts.drop_last()) + seq!['\n'] + parts.last()
    }
}

/// Joins the strings with a newline between neighbours and no trailing newline.
pub fn join_lines(parts: &Vec<String>) -> (res: String)
    ensures
        res@ == spec_join_lines(parts.deep_view()),
{
    let mut out = String::new();
    let mut i: usize = 0;
    while i < parts.len()
        invariant
            0 <= i <= parts@.len(),
            out@ == spec_join_lines(parts.deep_view().take(i as int)),
        decreases parts@.len() - i,
    {
        proof {
            reveal_strlit("\n");
            assert("\n"@ =~= seq!['\n']);
            assert(parts.deep_view().take(i + 1).drop_last() =~= parts.deep_view().take(i as int));
            assert(parts.deep_view().take(i + 1).last() == parts@[i as int]@);
        }
        if i > 0 {
            out.append("\n");
        }
        out.append(parts[i].as_str());
        i += 1;
    }
    proof {
        assert(parts.deep_view().take(parts@.len() as int) =~= parts.deep_view());
    }
    out
}

} // verus!

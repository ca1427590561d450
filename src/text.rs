//! Conversions between strings, characters and bytes.

use vstd::prelude::*;

verus! {

/// Relies on `FromIterator<&char> for String`: the string holds exactly the
/// characters of `cs` from `start` up to `end`, in order.
#[verifier::external_body]
pub(crate) fn string_from_chars(cs: &[char], start: usize, end: usize) -> (r: String)
    requires
        start <= end <= cs@.len(),
    ensures
        r@ == cs@.subrange(start as int, end as int),
{
    cs[start..end].iter().collect()
}

/// The characters of `s`, in order.
pub fn chars_of(s: &str) -> (r: Vec<char>)
    ensures
        r@ == s@,
{
    let mut out: Vec<char> = Vec::new();
    for c in it: s.chars()
        invariant
            out@ == it.seq().take(it.index() as int),
    {
        out.push(c);
    }
    out
}

} // verus!

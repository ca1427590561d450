//! The grammar of the suppression-pattern list: segments separated by a comma
//! or a semicolon, each delimiter optionally followed by one space.

use vstd::prelude::*;
use crate::text::string_from_chars;

verus! {

/// A character that ends a segment.
pub open spec fn is_delimiter(c: char) -> bool {
    c == ',' || c == ';'
}

/// How many characters the delimiter at `i` spans: the comma or semicolon,
/// and one space right after it if there is one.
pub open spec fn delimiter_len(s: Seq<char>, i: int) -> int {
    if i + 1 < s.len() && s[i + 1] == ' ' {
        2
    } else {
        1
    }
}

/// The segments of `s` from position `i` on, where the segment being read
/// began at `start`.
pub open spec fn segments_from(s: Seq<char>, start: int, i: int) -> Seq<Seq<char>>
    decreases s.len() - i,
{
    if i < 0 || start < 0 || start > i || i >= s.len() {
        seq![s.subrange(start, s.len() as int)]
    } else if is_delimiter(s[i]) {
        let next = i + delimiter_len(s, i);
        seq![s.subrange(start, i)] + segments_from(s, next, next)
    } else {
        segments_from(s, start, i + 1)
    }
}

/// The segments of a pattern list. An empty list has no segments; otherwise
/// there is one more segment than there are delimiters, and segments may be
/// empty.
pub open spec fn segments(s: Seq<char>) -> Seq<Seq<char>> {
    if s.len() == 0 {
        seq![]
    } else {
        segments_from(s, 0, 0)
    }
}

/// Splits a pattern list into its segments.
pub fn split_segments(s: &str) -> (r: Vec<String>)
    ensures
        r@.map_values(|x: String| x@) == segments(s@),
{
    let cs = crate::text::chars_of(s);
    let mut out: Vec<String> = Vec::new();
    if cs.len() == 0 {
        assert(out@.map_values(|x: String| x@) =~= segments(s@));
        return out;
    }
    let mut start: usize = 0;
    let mut i: usize = 0;
    while i < cs.len()
        invariant
            cs@ == s@,
            start <= i <= cs.len(),
            out@.map_values(|x: String| x@) + segments_from(cs@, start as int, i as int)
                == segments_from(cs@, 0, 0),
        decreases cs.len() - i,
    {
        if cs[i] == ',' || cs[i] == ';' {
            let piece = string_from_chars(cs.as_slice(), start, i);
            let ghost before = out@.map_values(|x: String| x@);
            let next: usize = if i + 1 < cs.len() && cs[i + 1] == ' ' { i + 2 } else { i + 1 };
            assert(piece@ == cs@.subrange(start as int, i as int));
            out.push(piece);
            assert(out@.map_values(|x: String| x@) =~= before + seq![piece@]);
            assert(segments_from(cs@, start as int, i as int)
                == seq![piece@] + segments_from(cs@, next as int, next as int));
            assert(before + segments_from(cs@, start as int, i as int)
                =~= out@.map_values(|x: String| x@) + segments_from(cs@, next as int, next as int));
            start = next;
            i = next;
        } else {
            i = i + 1;
        }
    }
    let piece = string_from_chars(cs.as_slice(), start, cs.len());
    let ghost before = out@.map_values(|x: String| x@);
    out.push(piece);
    assert(out@.map_values(|x: String| x@) =~= before + seq![piece@]);
    out
}

} // verus!

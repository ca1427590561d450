//! Suppression of request logging by path pattern.

use vstd::prelude::*;
use crate::config::{segments, split_segments};

verus! {

/// Whether a regular expression with this source text compiles.
pub uninterp spec fn regex_compiles(pattern: Seq<char>) -> bool;

/// Whether the compiled regular expression `pattern` matches somewhere in
/// `haystack`.
pub uninterp spec fn regex_finds(pattern: Seq<char>, haystack: Seq<char>) -> bool;

#[verifier::external_type_specification]
#[verifier::external_body]
pub struct ExRegex(regex_lite::Regex);

/// A compiled path pattern, together with the text it was compiled from.
pub struct Pattern {
    source: String,
    regex: regex_lite::Regex,
}

impl View for Pattern {
    type V = Seq<char>;

    closed spec fn view(&self) -> Seq<char> {
        self.source@
    }
}

/// Relies on `regex_lite::Regex::new`: it succeeds exactly on the patterns
/// that compile, and the pattern keeps the source text it was given.
#[verifier::external_body]
fn compile_pattern(source: &str) -> (r: Option<Pattern>)
    ensures
        r is Some <==> regex_compiles(source@),
        r matches Some(p) ==> p@ == source@,
{
    match regex_lite::Regex::new(source) {
        Ok(regex) => Some(Pattern { source: source.to_owned(), regex }),
        Err(_) => None,
    }
}

/// Relies on `regex_lite::Regex::is_match`: whether the pattern matches
/// anywhere in the haystack. A `Pattern` is only made by `compile_pattern`,
/// so its regex is the one compiled from its source.
#[verifier::external_body]
fn pattern_finds(p: &Pattern, haystack: &str) -> (r: bool)
    ensures
        r == regex_finds(p@, haystack@),
{
    p.regex.is_match(haystack)
}

impl Pattern {
    /// The source text of the pattern.
    pub fn as_str(&self) -> (r: &str)
        ensures
            r@ == self@,
    {
        self.source.as_str()
    }
}

/// The segments that compile, in their order; the others are dropped.
pub open spec fn kept_patterns(segs: Seq<Seq<char>>) -> Seq<Seq<char>>
    decreases segs.len(),
{
    if segs.len() == 0 {
        seq![]
    } else {
        let rest = kept_patterns(segs.drop_last());
        if regex_compiles(segs.last()) {
            rest.push(segs.last())
        } else {
            rest
        }
    }
}

/// Whether one of the patterns matches somewhere in `path`.
pub open spec fn suppressed_by(patterns: Seq<Seq<char>>, path: Seq<char>) -> bool {
    exists|i: int| 0 <= i < patterns.len() && regex_finds(#[trigger] patterns[i], path)
}

/// The sources of a list of compiled patterns.
pub open spec fn sources(ps: Seq<Pattern>) -> Seq<Seq<char>> {
    ps.map_values(|p: Pattern| p@)
}

/// Compiles every segment of a pattern list, dropping those that are not
/// valid patterns. An empty list gives no patterns.
pub fn parse_unlogged_patterns(value: &str) -> (r: Vec<Pattern>)
    ensures
        sources(r@) == kept_patterns(segments(value@)),
{
    let segs = split_segments(value);
    let ghost segv = segs@.map_values(|x: String| x@);
    let mut out: Vec<Pattern> = Vec::new();
    let mut i: usize = 0;
    assert(segv.take(0) =~= seq![]);
    while i < segs.len()
        invariant
            segv == segs@.map_values(|x: String| x@),
            i <= segs.len(),
            sources(out@) == kept_patterns(segv.take(i as int)),
        decreases segs.len() - i,
    {
        let ghost before = sources(out@);
        assert(segv.take(i as int + 1).drop_last() =~= segv.take(i as int));
        assert(segv.take(i as int + 1).last() == segs@[i as int]@);
        match compile_pattern(segs[i].as_str()) {
            Some(p) => {
                out.push(p);
                assert(sources(out@) =~= before.push(segs@[i as int]@));
            },
            None => {},
        }
        i = i + 1;
    }
    assert(segv.take(segs.len() as int) =~= segv);
    out
}

/// The patterns whose matching paths are not logged.
pub struct LogFilter {
    patterns: Vec<Pattern>,
}

impl View for LogFilter {
    type V = Seq<Seq<char>>;

    closed spec fn view(&self) -> Seq<Seq<char>> {
        sources(self.patterns@)
    }
}

impl LogFilter {
    /// Builds the filter from a pattern list; the segments that are not valid
    /// patterns are left out.
    pub fn new(config: &str) -> (r: Self)
        ensures
            r@ == kept_patterns(segments(config@)),
    {
        LogFilter { patterns: parse_unlogged_patterns(config) }
    }

    /// Whether a request with this path is logged: it is unless one of the
    /// patterns matches somewhere in the path.
    pub fn should_log(&self, path: &str) -> (r: bool)
        ensures
            r == !suppressed_by(self@, path@),
    {
        let mut i: usize = 0;
        while i < self.patterns.len()
            invariant
                i <= self.patterns@.len(),
                self@ == sources(self.patterns@),
                forall|j: int| 0 <= j < i ==> !regex_finds(#[trigger] self@[j], path@),
            decreases self.patterns@.len() - i,
        {
            if pattern_finds(&self.patterns[i], path) {
                assert(self@[i as int] == self.patterns@[i as int]@);
                return false;
            }
            assert(self@[i as int] == self.patterns@[i as int]@);
            i = i + 1;
        }
        true
    }

    /// The source texts of the active patterns, in order.
    pub fn pattern_sources(&self) -> (r: Vec<String>)
        ensures
            r@.map_values(|x: String| x@) == self@,
    {
        let mut out: Vec<String> = Vec::new();
        let mut i: usize = 0;
        while i < self.patterns.len()
            invariant
                i <= self.patterns@.len(),
                self@ == sources(self.patterns@),
                out@.map_values(|x: String| x@) == self@.take(i as int),
            decreases self.patterns@.len() - i,
        {
            let ghost before = out@.map_values(|x: String| x@);
            let src = self.patterns[i].as_str().to_owned();
            assert(src@ == self@[i as int]);
            out.push(src);
            assert(out@.map_values(|x: String| x@) =~= before.push(self@[i as int]));
            assert(self@.take(i as int + 1) =~= self@.take(i as int).push(self@[i as int]));
            assert(out@.map_values(|x: String| x@) =~= self@.take(i as int + 1));
            i = i + 1;
        }
        assert(self@.take(self@.len() as int) =~= self@);
        out
    }
}

/// The kept patterns are exactly the segments that compile: each kept
/// pattern is a segment that compiles, and each segment that compiles is kept.
pub proof fn lemma_kept_patterns(segs: Seq<Seq<char>>)
    ensures
        forall|i: int|
            0 <= i < kept_patterns(segs).len() ==> regex_compiles(#[trigger] kept_patterns(segs)[i])
                && segs.contains(kept_patterns(segs)[i]),
        forall|j: int|
            0 <= j < segs.len() && regex_compiles(#[trigger] segs[j]) ==> kept_patterns(segs).contains(
                segs[j],
            ),
        kept_patterns(segs).len() <= segs.len(),
    decreases segs.len(),
{
    if segs.len() > 0 {
        let rest = segs.drop_last();
        lemma_kept_patterns(rest);
        let k = kept_patterns(segs);
        let kr = kept_patterns(rest);
        assert forall|i: int| 0 <= i < k.len() implies regex_compiles(#[trigger] k[i]) && segs.contains(
            k[i],
        ) by {
            if i < kr.len() {
                assert(k[i] == kr[i]);
                let j = choose|j: int| 0 <= j < rest.len() && rest[j] == kr[i];
                assert(segs[j] == rest[j]);
            } else {
                assert(segs[segs.len() - 1] == k[i]);
            }
        }
        assert forall|j: int| 0 <= j < segs.len() && regex_compiles(#[trigger] segs[j]) implies k.contains(
            segs[j],
        ) by {
            if j < segs.len() - 1 {
                assert(rest[j] == segs[j]);
                let i = choose|i: int| 0 <= i < kr.len() && kr[i] == rest[j];
                assert(k[i] == kr[i]);
            } else {
                assert(k[k.len() - 1] == segs[j]);
            }
        }
    }
}

/// A pattern list with one segment that does not compile and one that does
/// gives a filter with exactly the one that does.
pub proof fn lemma_bad_pattern_dropped(config: Seq<char>, bad: Seq<char>, good: Seq<char>)
    requires
        segments(config) == seq![bad, good],
        !regex_compiles(bad),
        regex_compiles(good),
    ensures
        kept_patterns(segments(config)) == seq![good],
{
    let segs = seq![bad, good];
    assert(segs.drop_last() =~= seq![bad]);
    assert(seq![bad].drop_last() =~= Seq::<Seq<char>>::empty());
    assert(seq![bad].last() == bad);
    assert(kept_patterns(Seq::<Seq<char>>::empty()) =~= Seq::<Seq<char>>::empty());
    assert(kept_patterns(seq![bad]) =~= Seq::<Seq<char>>::empty());
    assert(segs.last() == good);
    assert(kept_patterns(segs) =~= seq![good]);
}

} // verus!

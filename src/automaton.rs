//! Multi-pattern automata (leftmost-longest) and the keyword automaton cache.
use vstd::prelude::*;
use vstd::utf8::encode_utf8;

use aho_corasick::{AhoCorasick, AhoCorasickBuilder, MatchKind};

verus! {

#[verifier::external_type_specification]
#[verifier::external_body]
pub struct ExAhoCorasick(AhoCorasick);

/// The patterns an automaton searches for, in their order, as bytes.
pub uninterp spec fn automaton_patterns(a: AhoCorasick) -> Seq<Seq<u8>>;

/// The last match that a leftmost-longest search of `haystack` for `patterns`
/// reports: the pattern's position in the list and the byte offset where the match ends.
pub uninterp spec fn last_match(patterns: Seq<Seq<u8>>, haystack: Seq<u8>) -> Option<(usize, usize)>;

/// The UTF-8 bytes of each string.
pub open spec fn utf8_all(v: Seq<Seq<char>>) -> Seq<Seq<u8>> {
    v.map_values(|s: Seq<char>| encode_utf8(s))
}

/// The total length of the patterns, in bytes.
pub open spec fn total_len(v: Seq<Seq<u8>>) -> int
    decreases v.len(),
{
    if v.len() == 0 {
        0
    } else {
        total_len(v.drop_last()) + v.last().len()
    }
}

/// Pattern lists for which building an automaton cannot fail. The builder fails only
/// when a state, transition or match identifier would pass about 2^31. There are at
/// most (total bytes + 4) states. Dense rows exist only for states shallower than 3,
/// fewer than 66 000 rows of 257 entries. Each state's match list copies the patterns
/// of a single state. So every table stays below patterns * (total bytes + 5).
pub open spec fn buildable(v: Seq<Seq<u8>>) -> bool {
    v.len() * (total_len(v) + 5) <= 2_000_000_000
}

/// Whether pattern `p` occurs in `h` ending at byte `end`.
pub open spec fn occurs_ending_at(p: Seq<u8>, h: Seq<u8>, end: int) -> bool {
    p.len() <= end <= h.len() && h.subrange(end - p.len(), end) == p
}

/// Relies on `AhoCorasickBuilder::build` with `MatchKind::LeftmostLongest`: a built
/// automaton searches for the given patterns, numbered in the order given. Building
/// fails only when a state, match or pattern identifier would overflow (about 2^31);
/// the automatic choice of DFA or contiguous NFA falls back on failure.
#[verifier::external_body]
fn build_leftmost_longest(patterns: &Vec<String>) -> (r: Option<AhoCorasick>)
    ensures
        r matches Some(a) ==> automaton_patterns(a) == utf8_all(patterns@.map_values(|s: String| s@)),
        buildable(utf8_all(patterns@.map_values(|s: String| s@))) ==> r is Some,
{
    AhoCorasickBuilder::new().match_kind(MatchKind::LeftmostLongest).build(patterns).ok()
}

/// An automaton over `patterns`, or `None` when there are none (or building failed).
pub fn build_automaton_leftmost_longest(patterns: &Vec<String>) -> (r: Option<AhoCorasick>)
    ensures
        patterns@.len() == 0 ==> r is None,
        patterns@.len() > 0 && buildable(utf8_all(patterns@.map_values(|s: String| s@))) ==> r is Some,
        r matches Some(a) ==> automaton_patterns(a) == utf8_all(patterns@.map_values(|s: String| s@)),
{
    if patterns.len() == 0 {
        return None;
    }
    build_leftmost_longest(patterns)
}

/// Relies on `AhoCorasick::find_iter(..).last()`: the last non-overlapping
/// leftmost-longest match, as (pattern number, end offset in bytes). A reported match
/// is an occurrence of its pattern; no match is reported only where no pattern occurs.
#[verifier::external_body]
pub(crate) fn find_last_match(a: &AhoCorasick, text: &str) -> (r: Option<(usize, usize)>)
    ensures
        r == last_match(automaton_patterns(*a), encode_utf8(text@)),
        r matches Some(m) ==> m.0 < automaton_patterns(*a).len() && occurs_ending_at(
            automaton_patterns(*a)[m.0 as int],
            encode_utf8(text@),
            m.1 as int,
        ),
        r is None ==> forall|i: int, e: int|
            0 <= i < automaton_patterns(*a).len() ==> !#[trigger] occurs_ending_at(
                automaton_patterns(*a)[i],
                encode_utf8(text@),
                e,
            ),
{
    a.find_iter(text).last().map(|m| (m.pattern().as_usize(), m.end()))
}

/// A lazily rebuilt automaton over a live keyword set: mutations of the set
/// invalidate it, and it is rebuilt on demand.
pub struct KeywordMatcherCache {
    automaton: Option<AhoCorasick>,
    matcher_needs_rebuild: bool,
}

impl KeywordMatcherCache {
    /// Whether the automaton is stale.
    pub closed spec fn stale(&self) -> bool {
        self.matcher_needs_rebuild
    }

    /// The keywords the current automaton was built from, if one is held.
    pub closed spec fn built_from(&self) -> Option<Seq<Seq<u8>>> {
        match self.automaton {
            Some(a) => Some(automaton_patterns(a)),
            None => None,
        }
    }

    /// The automaton held, if any.
    pub closed spec fn held(&self) -> Option<AhoCorasick> {
        self.automaton
    }

    /// An empty cache that asks to be built.
    pub fn new() -> (r: Self)
        ensures
            r.stale(),
            r.built_from() is None,
    {
        KeywordMatcherCache { automaton: None, matcher_needs_rebuild: true }
    }

    /// Marks the automaton stale.
    pub fn invalidate(&mut self)
        ensures
            final(self).stale(),
            final(self).built_from() == old(self).built_from(),
    {
        self.matcher_needs_rebuild = true;
    }

    /// Rebuilds the automaton from `patterns`; afterwards it is no longer stale.
    pub fn rebuild(&mut self, patterns: Vec<String>)
        ensures
            !final(self).stale(),
            patterns@.len() == 0 ==> final(self).built_from() is None,
            final(self).built_from() matches Some(p) ==> p == utf8_all(
                patterns@.map_values(|s: String| s@),
            ),
            patterns@.len() > 0 && buildable(utf8_all(patterns@.map_values(|s: String| s@)))
                ==> final(self).built_from() == Some(utf8_all(patterns@.map_values(|s: String| s@))),
    {
        let automaton = build_automaton_leftmost_longest(&patterns);
        self.automaton = automaton;
        self.matcher_needs_rebuild = false;
    }

    /// Runs `f` on the automaton when it is current and present.
    pub fn with_automaton<R, F: FnOnce(&AhoCorasick) -> R>(&self, f: F) -> (r: Option<R>)
        requires
            forall|a: &AhoCorasick| f.requires((a,)),
        ensures
            r is Some <==> (!self.stale() && self.held() is Some),
            r matches Some(v) ==> f.ensures((&self.held()->0,), v),
    {
        if self.matcher_needs_rebuild {
            return None;
        }
        match &self.automaton {
            Some(a) => Some(f(a)),
            None => None,
        }
    }

    /// Whether the automaton is stale.
    pub fn needs_rebuild(&self) -> (r: bool)
        ensures
            r == self.stale(),
    {
        self.matcher_needs_rebuild
    }
}

} // verus!

//! Fuzzy scoring: the matcher's base score plus launcher-specific bonuses.
use vstd::prelude::*;
use vstd::utf8::encode_utf8;

use nucleo_matcher::pattern::{CaseMatching, Normalization, Pattern};
use nucleo_matcher::{Config, Matcher, Utf32String};

verus! {

#[verifier::external_type_specification]
#[verifier::external_body]
pub struct ExMatcher(Matcher);

/// The base score and matched positions that a smart-case fuzzy pattern parsed from
/// `query` reports for `candidate`, or `None` when it does not match.
pub uninterp spec fn base_match(query: Seq<char>, candidate: Seq<char>) -> Option<(u32, Seq<u32>)>;

/// Queries at least this long (in characters) are not scored.
pub const MAX_QUERY_CHARS: usize = 131072;

/// Relies on `Pattern::parse` (smart case, smart normalization) and `Pattern::indices`
/// on a matcher made with `Config::DEFAULT`: the result depends on query and candidate
/// alone (the matcher is scratch space, and its case settings are reset from the
/// pattern on each call). It asserts that the haystack fits in `u32`, and it sums the
/// `u16` scores of the query's atoms (split at spaces, empty ones dropped) in a `u32`,
/// which cannot overflow for fewer than 131072 query characters (at most 65536 atoms).
#[verifier::external_body]
fn pattern_indices(matcher: &mut Matcher, query: &str, candidate: &str) -> (r: Option<(u32, Vec<u32>)>)
    requires
        candidate@.len() <= u32::MAX,
        query@.len() < MAX_QUERY_CHARS,
    ensures
        match r {
            Some(m) => base_match(query@, candidate@) == Some((m.0, m.1@)),
            None => base_match(query@, candidate@) is None,
        },
{
    let pattern = Pattern::parse(query, CaseMatching::Smart, Normalization::Smart);
    let haystack = Utf32String::from(candidate);
    let mut indices: Vec<u32> = Vec::new();
    pattern.indices(haystack.slice(..), matcher, &mut indices).map(|s| (s, indices))
}

/// Relies on `Matcher::new`: a matcher with the default configuration.
#[verifier::external_body]
fn new_matcher() -> (r: Matcher) {
    Matcher::new(Config::DEFAULT)
}

/// ASCII lower-casing of one byte.
pub open spec fn ascii_lower(b: u8) -> u8 {
    if 65 <= b <= 90 {
        (b + 32) as u8
    } else {
        b
    }
}

/// Byte strings equal up to ASCII case.
pub open spec fn eq_ignore_ascii_case(a: Seq<u8>, b: Seq<u8>) -> bool {
    a.len() == b.len() && forall|i: int| 0 <= i < a.len() ==> ascii_lower(a[i]) == ascii_lower(b[i])
}

/// `c` starts with `q` up to ASCII case.
pub open spec fn ascii_prefix(c: Seq<u8>, q: Seq<u8>) -> bool {
    c.len() >= q.len() && eq_ignore_ascii_case(c.subrange(0, q.len() as int), q)
}

/// The number of positions `i` with `idx[i + 1] == idx[i] + 1`.
pub open spec fn consecutive_pairs(idx: Seq<u32>) -> int
    decreases idx.len(),
{
    if idx.len() < 2 {
        0
    } else {
        consecutive_pairs(idx.drop_last()) + if idx[idx.len() - 1] == idx[idx.len() - 2] + 1 {
            1int
        } else {
            0int
        }
    }
}

/// The bonus that does not depend on the matched positions: exact (up to case) and
/// prefix matches.
pub open spec fn text_bonus(c: Seq<u8>, q: Seq<u8>) -> int {
    (if eq_ignore_ascii_case(c, q) {
        10000int
    } else {
        0int
    }) + (if ascii_prefix(c, q) {
        5000int
    } else {
        0int
    })
}

/// The bonus for where the match starts: 2000 when at position 0.
pub open spec fn start_bonus(idx: Seq<u32>) -> int {
    if idx.len() > 0 && idx[0] == 0 {
        2000
    } else {
        0
    }
}

/// Ten points per byte that the candidate is longer than the query.
pub open spec fn length_penalty(c: Seq<u8>, q: Seq<u8>) -> int {
    if c.len() > q.len() {
        (c.len() - q.len()) * 10
    } else {
        0
    }
}

/// The final score of a match with base score `base` and positions `idx`.
pub open spec fn bonus_score(c: Seq<u8>, q: Seq<u8>, base: int, idx: Seq<u32>) -> int {
    base + text_bonus(c, q) + start_bonus(idx) + 100 * consecutive_pairs(idx) - length_penalty(c, q)
}

/// Inputs far beyond any real name are not scored.
pub open spec fn scorable(c: Seq<char>, idx_len: int) -> bool {
    c.len() <= u32::MAX && idx_len < 0x1_0000_0000_0000
}

/// The score and positions of `candidate` for `query`; `None` when it does not match,
/// or when candidate or query is beyond the scoring limits.
pub open spec fn fuzzy_score(candidate: Seq<char>, query: Seq<char>) -> Option<(int, Seq<u32>)> {
    if candidate.len() > u32::MAX || query.len() >= MAX_QUERY_CHARS {
        None
    } else {
        match base_match(query, candidate) {
            Some(m) => if scorable(candidate, m.1.len() as int) {
                Some((bonus_score(encode_utf8(candidate), encode_utf8(query), m.0 as int, m.1), m.1))
            } else {
                None
            },
            None => None,
        }
    }
}

proof fn lemma_utf8_len(s: Seq<char>)
    ensures
        encode_utf8(s).len() <= 4 * s.len(),
    decreases s.len(),
{
    if s.len() > 0 {
        lemma_utf8_len(s.drop_first());
        assert(vstd::utf8::encode_scalar(s[0] as u32).len() <= 4);
    }
}

proof fn lemma_consecutive_bounds(idx: Seq<u32>)
    ensures
        0 <= consecutive_pairs(idx) <= if idx.len() == 0 { 0 } else { idx.len() - 1 },
    decreases idx.len(),
{
    if idx.len() >= 2 {
        lemma_consecutive_bounds(idx.drop_last());
    }
}

fn lower(b: u8) -> (r: u8)
    ensures
        r == ascii_lower(b),
{
    if 65 <= b && b <= 90 {
        b + 32
    } else {
        b
    }
}

/// Compares the first `n` bytes of `a` and `b` up to ASCII case.
fn prefix_eq_ignore_case(a: &[u8], b: &[u8], n: usize) -> (r: bool)
    requires
        n <= a@.len(),
        n <= b@.len(),
    ensures
        r == (forall|i: int| 0 <= i < n ==> ascii_lower(a@[i]) == ascii_lower(b@[i])),
{
    let mut i: usize = 0;
    while i < n
        invariant
            n <= a@.len(),
            n <= b@.len(),
            i <= n,
            forall|j: int| 0 <= j < i ==> ascii_lower(a@[j]) == ascii_lower(b@[j]),
        decreases n - i,
    {
        if lower(a[i]) != lower(b[i]) {
            return false;
        }
        i = i + 1;
    }
    true
}

/// Adds the launcher bonuses to a base score: +10000 for an exact match up to ASCII
/// case, +5000 for an ASCII case-insensitive prefix, +2000 when the first matched
/// position is 0, +100 per pair of adjacent matched positions, and minus ten per byte
/// that the candidate is longer than the query.
pub fn calculate_bonus(candidate: &str, query: &str, base_score: u32, indices: &Vec<u32>) -> (r: i64)
    requires
        candidate@.len() <= u32::MAX,
        indices@.len() < 0x1_0000_0000_0000,
    ensures
        r == bonus_of(candidate@, query@, base_score as int, indices@),
        eq_ignore_ascii_case(encode_utf8(candidate@), encode_utf8(query@)) ==> r >= base_score + 10000,
{
    let c = candidate.as_bytes();
    let q = query.as_bytes();
    let ghost cb = encode_utf8(candidate@);
    let ghost qb = encode_utf8(query@);
    proof {
        lemma_utf8_len(candidate@);
        lemma_consecutive_bounds(indices@);
    }
    assert(c@ == cb);
    assert(q@ == qb);
    let exact = c.len() == q.len() && prefix_eq_ignore_case(c, q, q.len());
    assert(exact == eq_ignore_ascii_case(cb, qb));
    let prefix = c.len() >= q.len() && prefix_eq_ignore_case(c, q, q.len());
    proof {
        if cb.len() >= qb.len() {
            assert forall|i: int| 0 <= i < qb.len() implies cb.subrange(0, qb.len() as int)[i] == cb[i] by {}
        }
    }
    assert(prefix == ascii_prefix(cb, qb));
    let start = indices.len() > 0 && indices[0] == 0;
    assert(start == (start_bonus(indices@) == 2000));
    let mut bonus: i64 = 0;
    if exact {
        bonus = bonus + 10000;
    }
    if prefix {
        bonus = bonus + 5000;
    }
    if start {
        bonus = bonus + 2000;
    }
    assert(bonus == text_bonus(cb, qb) + start_bonus(indices@));
    let mut consecutive: i64 = 0;
    if indices.len() > 1 {
        let mut i: usize = 1;
        assert(indices@.subrange(0, 1).len() == 1);
        while i < indices.len()
            invariant
                1 <= i <= indices@.len(),
                indices@.len() < 0x1_0000_0000_0000,
                consecutive == consecutive_pairs(indices@.subrange(0, i as int)),
                0 <= consecutive < i,
            decreases indices@.len() - i,
        {
            let ghost pre = indices@.subrange(0, i as int);
            let ghost now = indices@.subrange(0, i + 1);
            assert(now.drop_last() =~= pre);
            proof {
                lemma_consecutive_bounds(now);
            }
            if indices[i] as u64 == indices[i - 1] as u64 + 1 {
                consecutive = consecutive + 1;
            }
            i = i + 1;
        }
        assert(indices@.subrange(0, i as int) =~= indices@);
    }
    assert(consecutive == consecutive_pairs(indices@));
    let penalty: i64 = if c.len() > q.len() {
        ((c.len() - q.len()) as i64) * 10
    } else {
        0
    };
    assert(penalty == length_penalty(cb, qb));
    proof {
        if eq_ignore_ascii_case(cb, qb) {
            lemma_exact_match_bonus(cb, qb, base_score as int, indices@);
        }
    }
    base_score as i64 + bonus + consecutive * 100 - penalty
}

/// A fuzzy matcher with its scratch space.
pub struct FuzzyMatcher {
    matcher: Matcher,
}

impl FuzzyMatcher {
    pub fn new() -> (r: Self) {
        FuzzyMatcher { matcher: new_matcher() }
    }

    /// The score of `candidate` for `query` with the positions it matched.
    pub fn match_with_indices(&mut self, candidate: &str, query: &str) -> (r: Option<(i64, Vec<usize>)>)
        ensures
            match fuzzy_score(candidate@, query@) {
                Some(m) => match r {
                    Some(p) => p.0 == m.0 && p.1@ == m.1.map_values(|x: u32| x as usize),
                    None => false,
                },
                None => r is None,
            },
    {
        let n = candidate.unicode_len();
        if n > 4294967295 || query.unicode_len() >= MAX_QUERY_CHARS {
            return None;
        }
        match pattern_indices(&mut self.matcher, query, candidate) {
            None => None,
            Some((base, idx)) => {
                if idx.len() as u64 >= 0x1_0000_0000_0000u64 {
                    return None;
                }
                let score = calculate_bonus(candidate, query, base, &idx);
                let mut out: Vec<usize> = Vec::new();
                let mut i: usize = 0;
                while i < idx.len()
                    invariant
                        i <= idx@.len(),
                        out@ == idx@.subrange(0, i as int).map_values(|x: u32| x as usize),
                    decreases idx@.len() - i,
                {
                    out.push(idx[i] as usize);
                    i = i + 1;
                    assert(out@ =~= idx@.subrange(0, i as int).map_values(|x: u32| x as usize));
                }
                assert(idx@.subrange(0, idx@.len() as int) =~= idx@);
                Some((score, out))
            },
        }
    }

    /// The score of `candidate` for `query`.
    pub fn fuzzy_match(&mut self, candidate: &str, query: &str) -> (r: Option<i64>)
        ensures
            match fuzzy_score(candidate@, query@) {
                Some(m) => r == Some(m.0 as i64) && r->0 == m.0,
                None => r is None,
            },
    {
        match self.match_with_indices(candidate, query) {
            Some((s, _)) => Some(s),
            None => None,
        }
    }

    /// The positions of `candidate` that `query` matched.
    pub fn match_indices(&mut self, candidate: &str, query: &str) -> (r: Option<Vec<usize>>)
        ensures
            match fuzzy_score(candidate@, query@) {
                Some(m) => r is Some && r->0@ == m.1.map_values(|x: u32| x as usize),
                None => r is None,
            },
    {
        match self.match_with_indices(candidate, query) {
            Some((_, v)) => Some(v),
            None => None,
        }
    }
}

/// What `calculate_bonus(candidate, query, base, indices)` returns, over the strings.
pub open spec fn bonus_of(candidate: Seq<char>, query: Seq<char>, base: int, indices: Seq<u32>) -> int {
    bonus_score(encode_utf8(candidate), encode_utf8(query), base, indices)
}

/// An exact match up to ASCII case earns at least 10000 over the base score: the
/// lengths agree, so there is no length penalty.
pub proof fn lemma_exact_match_bonus(c: Seq<u8>, q: Seq<u8>, base: int, idx: Seq<u32>)
    requires
        eq_ignore_ascii_case(c, q),
    ensures
        bonus_score(c, q, base, idx) >= base + 10000,
{
    lemma_consecutive_bounds(idx);
}

/// A candidate equal to the query up to ASCII case scores at least 10000 over the base.
pub proof fn lemma_exact_match_scores(candidate: Seq<char>, query: Seq<char>, base: int, indices: Seq<u32>)
    requires
        eq_ignore_ascii_case(encode_utf8(candidate), encode_utf8(query)),
    ensures
        bonus_of(candidate, query, base, indices) >= base + 10000,
{
    lemma_exact_match_bonus(encode_utf8(candidate), encode_utf8(query), base, indices);
}

/// Of two candidates of equal byte length that both differ from the query (up to ASCII
/// case), the one that starts with the query scores exactly 5000 more.
pub proof fn lemma_prefix_adds_5000(
    c1: Seq<char>,
    c2: Seq<char>,
    query: Seq<char>,
    base: int,
    indices: Seq<u32>,
)
    requires
        encode_utf8(c1).len() == encode_utf8(c2).len(),
        !eq_ignore_ascii_case(encode_utf8(c1), encode_utf8(query)),
        !eq_ignore_ascii_case(encode_utf8(c2), encode_utf8(query)),
        ascii_prefix(encode_utf8(c1), encode_utf8(query)),
        !ascii_prefix(encode_utf8(c2), encode_utf8(query)),
    ensures
        bonus_of(c1, query, base, indices) == bonus_of(c2, query, base, indices) + 5000,
{
}

/// With candidate, query and base fixed, and the first position matched (or not) alike,
/// the score grows by exactly 100 per extra pair of adjacent matched positions.
pub proof fn lemma_score_monotone_in_runs(
    candidate: Seq<char>,
    query: Seq<char>,
    base: int,
    idx1: Seq<u32>,
    idx2: Seq<u32>,
)
    requires
        start_bonus(idx1) == start_bonus(idx2),
        consecutive_pairs(idx1) <= consecutive_pairs(idx2),
    ensures
        bonus_of(candidate, query, base, idx1) <= bonus_of(candidate, query, base, idx2),
        bonus_of(candidate, query, base, idx2) - bonus_of(candidate, query, base, idx1) == 100 * (
        consecutive_pairs(idx2) - consecutive_pairs(idx1)),
{
}

} // verus!

//! The search engine: fuzzy ranking over indexed items and files, with a result cache
//! that is dropped whenever the file index reports a new generation.
use vstd::prelude::*;

use std::collections::hash_map::RandomState;
use std::num::NonZeroUsize;

use lru::LruCache;

use crate::file_index::{entries_view, FileEntry, FileEntryView};
use crate::fuzzy::{fuzzy_score, FuzzyMatcher};
use crate::indexer::{items_view, IndexedItem, IndexedItemView, Indexer, ItemType, ItemTypeView};

verus! {

#[verifier::external_type_specification]
#[verifier::external_body]
#[verifier::reject_recursive_types(K)]
#[verifier::reject_recursive_types(V)]
#[verifier::reject_recursive_types(S)]
pub struct ExLruCache<K, V, S>(LruCache<K, V, S>);

/// The result cache: query to ranked results, least recently used evicted first.
pub type ResultCache = LruCache<String, Vec<SearchResult>, RandomState>;

/// A ranked match.
#[derive(Debug, Clone, PartialEq, Eq)]
pub struct SearchResult {
    pub item: IndexedItem,
    pub score: i64,
    pub match_indices: Vec<usize>,
}

pub ghost struct SearchResultView {
    pub item: IndexedItemView,
    pub score: int,
    pub match_indices: Seq<usize>,
}

impl View for SearchResult {
    type V = SearchResultView;

    open spec fn view(&self) -> SearchResultView {
        SearchResultView { item: self.item@, score: self.score as int, match_indices: self.match_indices@ }
    }
}

pub open spec fn results_view(v: Seq<SearchResult>) -> Seq<SearchResultView> {
    v.map_values(|r: SearchResult| r@)
}

/// Why a search failed.
#[derive(Debug, Clone, PartialEq, Eq)]
pub enum SearchError {
    IndexNotInitialized,
    QueryTooShort,
    Io(String),
}

impl SearchError {
    /// A message describing the error.
    pub fn message(&self) -> (r: String)
        ensures
            r@ == match self {
                SearchError::IndexNotInitialized => "Index not initialized"@,
                SearchError::QueryTooShort => "Query too short"@,
                SearchError::Io(e) => "IO error: "@ + e@,
            },
    {
        match self {
            SearchError::IndexNotInitialized => String::from_str("Index not initialized"),
            SearchError::QueryTooShort => String::from_str("Query too short"),
            SearchError::Io(e) => String::from_str("IO error: ").concat(e.as_str()),
        }
    }
}

/// Where file candidates come from for one search.
#[derive(Debug, Clone, PartialEq, Eq)]
pub enum FileSource {
    /// No file search.
    Disabled,
    /// The live file index: its generation and its entries.
    Indexed { generation: usize, entries: Vec<FileEntry> },
    /// The items of a shallow directory scan.
    Scanned(Vec<IndexedItem>),
}

/// A cache without entries.
pub open spec fn no_cached_results() -> Map<Seq<char>, Seq<SearchResultView>> {
    Map::empty()
}

/// The result cache's entries: query to full ranked result.
pub uninterp spec fn cached_results(c: ResultCache) -> Map<Seq<char>, Seq<SearchResultView>>;

/// Relies on `LruCache::with_hasher`: an empty cache holding at most `cap` entries.
#[verifier::external_body]
fn result_cache_new(cap: usize) -> (r: ResultCache)
    requires
        cap > 0,
    ensures
        cached_results(r) == no_cached_results(),
{
    LruCache::with_hasher(NonZeroUsize::new(cap).unwrap(), RandomState::new())
}

/// Relies on `LruCache::get`: the entry for `key`, cloned; only recency changes.
#[verifier::external_body]
fn result_cache_get(c: &mut ResultCache, key: &str) -> (r: Option<Vec<SearchResult>>)
    ensures
        cached_results(*final(c)) == cached_results(*old(c)),
        r is Some == cached_results(*old(c)).contains_key(key@),
        r matches Some(v) ==> results_view(v@) == cached_results(*old(c))[key@],
{
    c.get(key).cloned()
}

/// Relies on `LruCache::put`: `key` then holds `value`; another entry may be evicted,
/// and the rest are unchanged.
#[verifier::external_body]
fn result_cache_put(c: &mut ResultCache, key: String, value: Vec<SearchResult>)
    ensures
        cached_results(*final(c)).contains_key(key@),
        cached_results(*final(c))[key@] == results_view(value@),
        forall|k: Seq<char>| #[trigger]
            cached_results(*final(c)).contains_key(k) && k != key@ ==> cached_results(
                *old(c),
            ).contains_key(k) && cached_results(*final(c))[k] == cached_results(*old(c))[k],
{
    c.put(key, value);
}

/// Relies on `LruCache::clear`: no entries remain.
#[verifier::external_body]
fn result_cache_clear(c: &mut ResultCache)
    ensures
        cached_results(*final(c)) == no_cached_results(),
{
    c.clear();
}

/// `a` sorts before `b`: character by character, a proper prefix first.
pub open spec fn name_lt(a: Seq<char>, b: Seq<char>) -> bool
    decreases a.len(),
{
    if b.len() == 0 {
        false
    } else if a.len() == 0 {
        true
    } else if a[0] != b[0] {
        (a[0] as u32) < (b[0] as u32)
    } else {
        name_lt(a.drop_first(), b.drop_first())
    }
}

/// `a` ranks strictly ahead of `b`: higher score, or equal score and smaller name.
pub open spec fn ranks_before(a: SearchResultView, b: SearchResultView) -> bool {
    a.score > b.score || (a.score == b.score && name_lt(a.item.name, b.item.name))
}

/// Where `x` goes in a ranked list: before the first entry it ranks ahead of.
pub open spec fn insert_position(s: Seq<SearchResultView>, x: SearchResultView) -> int
    decreases s.len(),
{
    if s.len() == 0 {
        0
    } else if ranks_before(x, s[0]) {
        0
    } else {
        1 + insert_position(s.drop_first(), x)
    }
}

/// The results ranked by score (descending) then name (ascending); among equals, the
/// earlier candidate first.
pub open spec fn ranked(s: Seq<SearchResultView>) -> Seq<SearchResultView>
    decreases s.len(),
{
    if s.len() == 0 {
        s
    } else {
        let r = ranked(s.drop_last());
        r.insert(insert_position(r, s.last()), s.last())
    }
}

/// The item that stands for a file entry.
pub open spec fn file_item(e: FileEntryView) -> IndexedItemView {
    IndexedItemView {
        id: e.path,
        name: e.name,
        item_type: ItemTypeView::File,
        path: Some(e.path),
        metadata: None,
    }
}

pub ghost enum FileSourceView {
    Disabled,
    Indexed { generation: usize, entries: Seq<FileEntryView> },
    Scanned(Seq<IndexedItemView>),
}

impl View for FileSource {
    type V = FileSourceView;

    open spec fn view(&self) -> FileSourceView {
        match self {
            FileSource::Disabled => FileSourceView::Disabled,
            FileSource::Indexed { generation, entries } => FileSourceView::Indexed {
                generation: *generation,
                entries: entries_view(entries@),
            },
            FileSource::Scanned(items) => FileSourceView::Scanned(items_view(items@)),
        }
    }
}

/// All candidates of a search: the indexed items, then the file candidates.
pub open spec fn candidates(items: Seq<IndexedItemView>, files: FileSourceView) -> Seq<IndexedItemView> {
    items + match files {
        FileSourceView::Disabled => Seq::empty(),
        FileSourceView::Indexed { entries, .. } => entries.map_values(|e: FileEntryView| file_item(e)),
        FileSourceView::Scanned(s) => s,
    }
}

/// The candidates whose name matches `q`, with score and positions, in candidate order.
pub open spec fn matches(cands: Seq<IndexedItemView>, q: Seq<char>) -> Seq<SearchResultView>
    decreases cands.len(),
{
    if cands.len() == 0 {
        Seq::empty()
    } else {
        let before = matches(cands.drop_last(), q);
        let c = cands.last();
        match fuzzy_score(c.name, q) {
            Some(m) => before.push(
                SearchResultView {
                    item: c,
                    score: m.0,
                    match_indices: m.1.map_values(|x: u32| x as usize),
                },
            ),
            None => before,
        }
    }
}

/// The first `n` entries of `s` (all of them when there are fewer).
pub open spec fn take(s: Seq<SearchResultView>, n: int) -> Seq<SearchResultView> {
    if n < s.len() {
        s.subrange(0, n)
    } else {
        s
    }
}

/// Whether `a` sorts before `b` by characters.
pub fn name_less(a: &str, b: &str) -> (r: bool)
    ensures
        r == name_lt(a@, b@),
{
    let n = a.unicode_len();
    let m = b.unicode_len();
    let mut i: usize = 0;
    assert(a@.subrange(0, n as int) =~= a@);
    assert(b@.subrange(0, m as int) =~= b@);
    while i < n && i < m
        invariant
            n == a@.len(),
            m == b@.len(),
            i <= n,
            i <= m,
            name_lt(a@, b@) == name_lt(a@.subrange(i as int, n as int), b@.subrange(i as int, m as int)),
        decreases n - i,
    {
        let ca = a.get_char(i);
        let cb = b.get_char(i);
        let ghost sa = a@.subrange(i as int, n as int);
        let ghost sb = b@.subrange(i as int, m as int);
        if ca != cb {
            return (ca as u32) < (cb as u32);
        }
        assert(sa.drop_first() =~= a@.subrange(i + 1, n as int));
        assert(sb.drop_first() =~= b@.subrange(i + 1, m as int));
        i = i + 1;
    }
    i == n && i < m
}

fn ranks_ahead(a: &SearchResult, b: &SearchResult) -> (r: bool)
    ensures
        r == ranks_before(a@, b@),
{
    a.score > b.score || (a.score == b.score && name_less(a.item.name.as_str(), b.item.name.as_str()))
}

/// Inserts `x` into the ranked list `v` at its place.
fn insert_ranked(v: &mut Vec<SearchResult>, x: SearchResult)
    ensures
        results_view(final(v)@) == results_view(old(v)@).insert(
            insert_position(results_view(old(v)@), x@),
            x@,
        ),
{
    let ghost s = results_view(v@);
    let mut p: usize = 0;
    let mut found = false;
    assert(s.subrange(0, s.len() as int) =~= s);
    while p < v.len() && !found
        invariant
            s == results_view(v@),
            v@ == old(v)@,
            p <= v@.len(),
            found ==> p < v@.len() && ranks_before(x@, s[p as int]),
            insert_position(s, x@) == p + insert_position(s.subrange(p as int, s.len() as int), x@),
        decreases v@.len() - p + if found { 0int } else { 1int },
    {
        let ghost rest = s.subrange(p as int, s.len() as int);
        assert(s[p as int] == v@[p as int]@);
        if ranks_ahead(&x, &v[p]) {
            found = true;
        } else {
            assert(rest.drop_first() =~= s.subrange(p + 1, s.len() as int));
            p = p + 1;
        }
    }
    proof {
        let rest = s.subrange(p as int, s.len() as int);
        if found {
            assert(rest[0] == s[p as int]);
        }
        assert(insert_position(rest, x@) == 0);
    }
    let ghost xv = x@;
    v.insert(p, x);
    assert(results_view(v@) =~= s.insert(p as int, xv));
}

fn copy_results(v: &Vec<SearchResult>, n: usize) -> (r: Vec<SearchResult>)
    ensures
        results_view(r@) == take(results_view(v@), n as int),
{
    let end = if n < v.len() {
        n
    } else {
        v.len()
    };
    let mut r: Vec<SearchResult> = Vec::new();
    let mut i: usize = 0;
    while i < end
        invariant
            end <= v@.len(),
            i <= end,
            r@.len() == i,
            forall|j: int| 0 <= j < i ==> r@[j]@ == v@[j]@,
        decreases end - i,
    {
        let x = SearchResult {
            item: v[i].item.duplicate(),
            score: v[i].score,
            match_indices: copy_indices(&v[i].match_indices),
        };
        assert(x@ == v@[i as int]@);
        r.push(x);
        i = i + 1;
    }
    assert(results_view(r@) =~= take(results_view(v@), n as int));
    r
}

fn copy_indices(v: &Vec<usize>) -> (r: Vec<usize>)
    ensures
        r@ == v@,
{
    let mut r: Vec<usize> = Vec::new();
    let mut i: usize = 0;
    while i < v.len()
        invariant
            i <= v@.len(),
            r@ == v@.subrange(0, i as int),
        decreases v@.len() - i,
    {
        r.push(v[i]);
        i = i + 1;
        assert(r@ =~= v@.subrange(0, i as int));
    }
    assert(v@.subrange(0, v@.len() as int) =~= v@);
    r
}

proof fn lemma_rank_step(cands: Seq<IndexedItemView>, i: int, q: Seq<char>)
    requires
        0 <= i < cands.len(),
    ensures
        ranked(matches(cands.subrange(0, i + 1), q)) == match fuzzy_score(cands[i].name, q) {
            Some(m) => {
                let x = SearchResultView {
                    item: cands[i],
                    score: m.0,
                    match_indices: m.1.map_values(|x: u32| x as usize),
                };
                let r = ranked(matches(cands.subrange(0, i), q));
                r.insert(insert_position(r, x), x)
            },
            None => ranked(matches(cands.subrange(0, i), q)),
        },
{
    let c = cands.subrange(0, i + 1);
    assert(c.drop_last() =~= cands.subrange(0, i));
    assert(c.last() == cands[i]);
    let ms = matches(cands.subrange(0, i), q);
    match fuzzy_score(cands[i].name, q) {
        Some(m) => {
            let x = SearchResultView {
                item: cands[i],
                score: m.0,
                match_indices: m.1.map_values(|x: u32| x as usize),
            };
            assert(ms.push(x).drop_last() =~= ms);
        },
        None => {},
    }
}

/// The capacity of the result cache.
pub const RESULT_CACHE_SIZE: usize = 256;

/// The search engine: the in-memory index, the matcher, the result cache and the last
/// file-index generation it saw.
pub struct SearchEngine {
    indexer: Indexer,
    matcher: FuzzyMatcher,
    cache: ResultCache,
    file_indexer_generation: usize,
}

impl SearchEngine {
    pub closed spec fn index(&self) -> Indexer {
        self.indexer
    }

    /// The cached results, by query.
    pub closed spec fn cached(&self) -> Map<Seq<char>, Seq<SearchResultView>> {
        cached_results(self.cache)
    }

    /// The file-index generation seen by the last search.
    pub closed spec fn observed_generation(&self) -> usize {
        self.file_indexer_generation
    }

    pub open spec fn wf(&self) -> bool {
        self.index().wf()
    }

    pub fn new() -> (r: Self)
        ensures
            r.wf(),
            r.index().items() == Seq::<IndexedItemView>::empty(),
            r.cached() == no_cached_results(),
            r.observed_generation() == 0,
    {
        SearchEngine {
            indexer: Indexer::new(),
            matcher: FuzzyMatcher::new(),
            cache: result_cache_new(RESULT_CACHE_SIZE),
            file_indexer_generation: 0,
        }
    }

    /// The in-memory index.
    pub fn indexer(&self) -> (r: &Indexer)
        ensures
            *r == self.index(),
    {
        &self.indexer
    }

    /// The in-memory index, for changes. The result cache is kept.
    pub fn indexer_mut(&mut self) -> (r: &mut Indexer)
        ensures
            *r == old(self).index(),
            final(self).index() == *final(r),
            final(self).cached() == old(self).cached(),
            final(self).observed_generation() == old(self).observed_generation(),
    {
        &mut self.indexer
    }

    /// Drops every cached result.
    pub fn clear_cache(&mut self)
        ensures
            final(self).cached() == no_cached_results(),
            final(self).index() == old(self).index(),
            final(self).observed_generation() == old(self).observed_generation(),
    {
        result_cache_clear(&mut self.cache);
    }

    /// Drops the cache when the file index has a generation not seen before.
    fn check_and_invalidate_cache(&mut self, files: &FileSource)
        ensures
            final(self).index() == old(self).index(),
            final(self).cached() == cache_at_lookup(old(self).cached(), old(self).observed_generation(), files@),
            final(self).observed_generation() == match files@ {
                FileSourceView::Indexed { generation, .. } => generation,
                _ => old(self).observed_generation(),
            },
    {
        if let FileSource::Indexed { generation, .. } = files {
            if *generation != self.file_indexer_generation {
                result_cache_clear(&mut self.cache);
                self.file_indexer_generation = *generation;
            }
        }
    }

    /// Scores one candidate and places it in the ranked list.
    fn rank_candidate(&mut self, ranked_so_far: &mut Vec<SearchResult>, item: IndexedItem, query: &str)
        ensures
            final(self).index() == old(self).index(),
            final(self).cached() == old(self).cached(),
            final(self).observed_generation() == old(self).observed_generation(),
            results_view(final(ranked_so_far)@) == match fuzzy_score(item@.name, query@) {
                Some(m) => {
                    let x = SearchResultView {
                        item: item@,
                        score: m.0,
                        match_indices: m.1.map_values(|x: u32| x as usize),
                    };
                    results_view(old(ranked_so_far)@).insert(
                        insert_position(results_view(old(ranked_so_far)@), x),
                        x,
                    )
                },
                None => results_view(old(ranked_so_far)@),
            },
    {
        if let Some((score, indices)) = self.matcher.match_with_indices(item.name.as_str(), query) {
            insert_ranked(ranked_so_far, SearchResult { item, score, match_indices: indices });
        }
    }

    /// Searches for `query` and returns at most `limit` results, best first.
    ///
    /// An empty query is refused. When `files` is the file index and its generation
    /// differs from the one last seen, the cache is dropped first. A cached result for
    /// the query is reused; otherwise every candidate is scored and ranked, and the full
    /// ranking is cached under the query.
    pub fn search(&mut self, query: &str, limit: usize, files: &FileSource) -> (r: Result<Vec<SearchResult>, SearchError>)
        requires
            old(self).wf(),
        ensures
            final(self).wf(),
            final(self).index() == old(self).index(),
            query@.len() == 0 ==> r == Err::<Vec<SearchResult>, SearchError>(SearchError::QueryTooShort)
                && final(self).cached() == old(self).cached()
                && final(self).observed_generation() == old(self).observed_generation(),
            query@.len() > 0 ==> {
                let start = cache_at_lookup(old(self).cached(), old(self).observed_generation(), files@);
                let full = ranked(matches(candidates(old(self).index().items(), files@), query@));
                &&& r is Ok
                &&& final(self).observed_generation() == match files@ {
                    FileSourceView::Indexed { generation, .. } => generation,
                    _ => old(self).observed_generation(),
                }
                &&& start.contains_key(query@) ==> results_view(r->Ok_0@) == take(
                    start[query@],
                    limit as int,
                ) && final(self).cached() == start
                &&& !start.contains_key(query@) ==> results_view(r->Ok_0@) == take(full, limit as int)
                    && final(self).cached().contains_key(query@) && final(self).cached()[query@]
                    == full
                &&& !start.contains_key(query@) ==> forall|k: Seq<char>| #[trigger]
                    final(self).cached().contains_key(k) && k != query@ ==> start.contains_key(k)
                        && final(self).cached()[k] == start[k]
            },
    {
        if query.unicode_len() == 0 {
            return Err(SearchError::QueryTooShort);
        }
        self.check_and_invalidate_cache(files);
        if let Some(hit) = result_cache_get(&mut self.cache, query) {
            return Ok(copy_results(&hit, limit));
        }
        let ghost items = self.indexer.items();
        let ghost cands = candidates(items, files@);
        let ghost cached_now = self.cached();
        let ghost gen_now = self.observed_generation();
        let mut sorted: Vec<SearchResult> = Vec::new();
        let mut i: usize = 0;
        let n = self.indexer.items_iter().len();
        while i < n
            invariant
                n == items.len(),
                items == self.index().items(),
                self.index() == old(self).index(),
                cands == candidates(items, files@),
                self.cached() == cached_now,
                self.observed_generation() == gen_now,
                i <= n,
                results_view(sorted@) == ranked(matches(cands.subrange(0, i as int), query@)),
            decreases n - i,
        {
            let item = self.indexer.items_iter()[i].duplicate();
            proof {
                assert(cands[i as int] == items[i as int]);
                lemma_rank_step(cands, i as int, query@);
            }
            let ghost before = sorted@;
            self.rank_candidate(&mut sorted, item, query);
            i = i + 1;
        }
        match files {
            FileSource::Disabled => {},
            FileSource::Indexed { entries, .. } => {
                let mut j: usize = 0;
                while j < entries.len()
                    invariant
                        n == items.len(),
                        items == self.index().items(),
                        self.index() == old(self).index(),
                        self.cached() == cached_now,
                        self.observed_generation() == gen_now,
                        cands == candidates(items, files@),
                        files@ == (FileSourceView::Indexed { generation: files@->generation, entries: entries_view(entries@) }),
                        j <= entries@.len(),
                        results_view(sorted@) == ranked(matches(cands.subrange(0, n + j), query@)),
                    decreases entries@.len() - j,
                {
                    let e = &entries[j];
                    let item = IndexedItem {
                        id: e.path.clone(),
                        name: e.name.clone(),
                        item_type: ItemType::File,
                        path: Some(e.path.clone()),
                        metadata: None,
                    };
                    proof {
                        assert(cands[n + j] == file_item(entries@[j as int]@));
                        assert(item@ == file_item(entries@[j as int]@));
                        lemma_rank_step(cands, n + j, query@);
                    }
                    self.rank_candidate(&mut sorted, item, query);
                    j = j + 1;
                }
                assert(cands.subrange(0, n + entries@.len()) =~= cands);
            },
            FileSource::Scanned(scanned) => {
                let mut j: usize = 0;
                while j < scanned.len()
                    invariant
                        n == items.len(),
                        items == self.index().items(),
                        self.index() == old(self).index(),
                        self.cached() == cached_now,
                        self.observed_generation() == gen_now,
                        cands == candidates(items, files@),
                        files@ == FileSourceView::Scanned(items_view(scanned@)),
                        j <= scanned@.len(),
                        results_view(sorted@) == ranked(matches(cands.subrange(0, n + j), query@)),
                    decreases scanned@.len() - j,
                {
                    let item = scanned[j].duplicate();
                    proof {
                        assert(cands[n + j] == scanned@[j as int]@);
                        lemma_rank_step(cands, n + j, query@);
                    }
                    self.rank_candidate(&mut sorted, item, query);
                    j = j + 1;
                }
                assert(cands.subrange(0, n + scanned@.len()) =~= cands);
            },
        }
        proof {
            if files@ is Disabled {
                assert(cands.subrange(0, n as int) =~= cands);
            }
        }
        let out = copy_results(&sorted, limit);
        result_cache_put(&mut self.cache, String::from_str(query), sorted);
        Ok(out)
    }
}

/// The cache a search consults: emptied when the file index shows a generation other
/// than the one last observed.
pub open spec fn cache_at_lookup(
    cached: Map<Seq<char>, Seq<SearchResultView>>,
    observed: usize,
    files: FileSourceView,
) -> Map<Seq<char>, Seq<SearchResultView>> {
    match files {
        FileSourceView::Indexed { generation, .. } => if generation != observed {
            no_cached_results()
        } else {
            cached
        },
        _ => cached,
    }
}

/// After the file index's generation advances, the next search finds no cached result
/// for any query: it ranks afresh.
pub proof fn lemma_new_generation_clears_cache(
    cached: Map<Seq<char>, Seq<SearchResultView>>,
    observed: usize,
    generation: usize,
    entries: Seq<FileEntryView>,
)
    requires
        generation != observed,
    ensures
        forall|q: Seq<char>|
            !#[trigger] cache_at_lookup(cached, observed, FileSourceView::Indexed { generation, entries }).contains_key(q),
{
}

} // verus!

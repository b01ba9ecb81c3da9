//! The in-memory index of searchable items, with per-kind counters.
use vstd::prelude::*;

use crate::action::opt_view;
use crate::text::str_eq;

verus! {

/// What an item is.
#[derive(Debug, Clone, PartialEq, Eq)]
pub enum ItemType {
    Application,
    File,
    Snippet,
    ClipboardEntry,
    Custom(String),
}

/// A searchable item; `id` is unique within an index.
#[derive(Debug, Clone, PartialEq, Eq)]
pub struct IndexedItem {
    pub id: String,
    pub name: String,
    pub item_type: ItemType,
    pub path: Option<String>,
    pub metadata: Option<Vec<(String, String)>>,
}

pub ghost enum ItemTypeView {
    Application,
    File,
    Snippet,
    ClipboardEntry,
    Custom(Seq<char>),
}

pub ghost struct IndexedItemView {
    pub id: Seq<char>,
    pub name: Seq<char>,
    pub item_type: ItemTypeView,
    pub path: Option<Seq<char>>,
    pub metadata: Option<Seq<(Seq<char>, Seq<char>)>>,
}

impl View for ItemType {
    type V = ItemTypeView;

    open spec fn view(&self) -> ItemTypeView {
        match self {
            ItemType::Application => ItemTypeView::Application,
            ItemType::File => ItemTypeView::File,
            ItemType::Snippet => ItemTypeView::Snippet,
            ItemType::ClipboardEntry => ItemTypeView::ClipboardEntry,
            ItemType::Custom(t) => ItemTypeView::Custom(t@),
        }
    }
}

pub open spec fn pairs_view(v: Seq<(String, String)>) -> Seq<(Seq<char>, Seq<char>)> {
    v.map_values(|p: (String, String)| (p.0@, p.1@))
}

impl View for IndexedItem {
    type V = IndexedItemView;

    open spec fn view(&self) -> IndexedItemView {
        IndexedItemView {
            id: self.id@,
            name: self.name@,
            item_type: self.item_type@,
            path: opt_view(self.path),
            metadata: match self.metadata {
                Some(m) => Some(pairs_view(m@)),
                None => None,
            },
        }
    }
}

pub open spec fn items_view(v: Seq<IndexedItem>) -> Seq<IndexedItemView> {
    v.map_values(|i: IndexedItem| i@)
}

impl ItemType {
    /// Whether two kinds are the same (custom kinds compare their tags).
    pub fn same_as(&self, other: &ItemType) -> (r: bool)
        ensures
            r == (self@ == other@),
    {
        match (self, other) {
            (ItemType::Application, ItemType::Application) => true,
            (ItemType::File, ItemType::File) => true,
            (ItemType::Snippet, ItemType::Snippet) => true,
            (ItemType::ClipboardEntry, ItemType::ClipboardEntry) => true,
            (ItemType::Custom(a), ItemType::Custom(b)) => a.eq(b),
            _ => false,
        }
    }

    pub fn duplicate(&self) -> (r: Self)
        ensures
            r@ == self@,
    {
        match self {
            ItemType::Application => ItemType::Application,
            ItemType::File => ItemType::File,
            ItemType::Snippet => ItemType::Snippet,
            ItemType::ClipboardEntry => ItemType::ClipboardEntry,
            ItemType::Custom(t) => ItemType::Custom(t.clone()),
        }
    }
}

fn copy_pairs(v: &Vec<(String, String)>) -> (r: Vec<(String, String)>)
    ensures
        pairs_view(r@) == pairs_view(v@),
{
    let mut r: Vec<(String, String)> = Vec::new();
    let mut i: usize = 0;
    while i < v.len()
        invariant
            i <= v@.len(),
            r@.len() == i,
            forall|j: int| 0 <= j < i ==> r@[j].0@ == v@[j].0@ && r@[j].1@ == v@[j].1@,
        decreases v@.len() - i,
    {
        let a = v[i].0.clone();
        let b = v[i].1.clone();
        r.push((a, b));
        i = i + 1;
    }
    assert(pairs_view(r@) =~= pairs_view(v@));
    r
}

impl IndexedItem {
    pub fn duplicate(&self) -> (r: Self)
        ensures
            r@ == self@,
    {
        IndexedItem {
            id: self.id.clone(),
            name: self.name.clone(),
            item_type: self.item_type.duplicate(),
            path: match &self.path {
                Some(p) => Some(p.clone()),
                None => None,
            },
            metadata: match &self.metadata {
                Some(m) => Some(copy_pairs(m)),
                None => None,
            },
        }
    }
}

/// The number of items of kind `k`.
pub open spec fn count_kind(items: Seq<IndexedItemView>, k: ItemTypeView) -> nat
    decreases items.len(),
{
    if items.len() == 0 {
        0
    } else {
        count_kind(items.drop_last(), k) + if items.last().item_type == k {
            1nat
        } else {
            0nat
        }
    }
}

/// No two items share an identifier.
pub open spec fn ids_distinct(items: Seq<IndexedItemView>) -> bool {
    forall|i: int, j: int| 0 <= i < j < items.len() ==> items[i].id != items[j].id
}

/// The position of the item with identifier `id`, if any.
pub open spec fn position_of(items: Seq<IndexedItemView>, id: Seq<char>) -> Option<int> {
    if exists|i: int| 0 <= i < items.len() && items[i].id == id {
        Some(choose|i: int| 0 <= i < items.len() && items[i].id == id)
    } else {
        None
    }
}

proof fn lemma_count_push(items: Seq<IndexedItemView>, x: IndexedItemView, k: ItemTypeView)
    ensures
        count_kind(items.push(x), k) == count_kind(items, k) + if x.item_type == k { 1nat } else { 0nat },
{
    assert(items.push(x).drop_last() =~= items);
}

proof fn lemma_count_bound(items: Seq<IndexedItemView>, k: ItemTypeView)
    ensures
        count_kind(items, k) <= items.len(),
    decreases items.len(),
{
    if items.len() > 0 {
        lemma_count_bound(items.drop_last(), k);
    }
}

proof fn lemma_count_update(items: Seq<IndexedItemView>, p: int, x: IndexedItemView, k: ItemTypeView)
    requires
        0 <= p < items.len(),
    ensures
        count_kind(items.update(p, x), k) + (if items[p].item_type == k { 1int } else { 0int })
            == count_kind(items, k) + (if x.item_type == k { 1int } else { 0int }),
    decreases items.len(),
{
    let u = items.update(p, x);
    if p == items.len() - 1 {
        assert(u.drop_last() =~= items.drop_last());
    } else {
        assert(u.drop_last() =~= items.drop_last().update(p, x));
        lemma_count_update(items.drop_last(), p, x, k);
    }
}

proof fn lemma_count_remove(items: Seq<IndexedItemView>, p: int, k: ItemTypeView)
    requires
        0 <= p < items.len(),
    ensures
        count_kind(items.remove(p), k) + (if items[p].item_type == k { 1int } else { 0int })
            == count_kind(items, k),
    decreases items.len(),
{
    let r = items.remove(p);
    if p == items.len() - 1 {
        assert(r =~= items.drop_last());
    } else {
        assert(r.drop_last() =~= items.drop_last().remove(p));
        assert(r.last() == items.last());
        lemma_count_remove(items.drop_last(), p, k);
    }
}

/// Searchable items by identifier, with counters of all items, applications, files
/// and snippets.
pub struct Indexer {
    items: Vec<IndexedItem>,
    total_items: usize,
    apps: usize,
    files: usize,
    snippets: usize,
}

impl Indexer {
    /// The items, in insertion order.
    pub closed spec fn items(&self) -> Seq<IndexedItemView> {
        items_view(self.items@)
    }

    /// Identifiers are unique and the counters agree with the items.
    pub closed spec fn wf(&self) -> bool {
        &&& ids_distinct(self.items())
        &&& self.total_items == self.items().len()
        &&& self.apps == count_kind(self.items(), ItemTypeView::Application)
        &&& self.files == count_kind(self.items(), ItemTypeView::File)
        &&& self.snippets == count_kind(self.items(), ItemTypeView::Snippet)
    }

    /// A well-formed index holds each identifier at most once.
    pub proof fn lemma_wf_ids_distinct(&self)
        requires
            self.wf(),
        ensures
            ids_distinct(self.items()),
    {
    }

    /// The counters (total, applications, files, snippets) that `stats` reports.
    pub open spec fn counts(&self) -> (nat, nat, nat, nat) {
        (
            self.items().len(),
            count_kind(self.items(), ItemTypeView::Application),
            count_kind(self.items(), ItemTypeView::File),
            count_kind(self.items(), ItemTypeView::Snippet),
        )
    }

    pub fn new() -> (r: Self)
        ensures
            r.wf(),
            r.items() == Seq::<IndexedItemView>::empty(),
    {
        let r = Indexer { items: Vec::new(), total_items: 0, apps: 0, files: 0, snippets: 0 };
        assert(r.items() =~= Seq::<IndexedItemView>::empty());
        r
    }

    fn find(&self, id: &str) -> (r: Option<usize>)
        requires
            self.wf(),
        ensures
            r matches Some(p) ==> p < self.items().len() && self.items()[p as int].id == id@
                && position_of(self.items(), id@) == Some(p as int),
            r is None ==> position_of(self.items(), id@) is None,
    {
        let mut i: usize = 0;
        while i < self.items.len()
            invariant
                i <= self.items@.len(),
                ids_distinct(self.items()),
                forall|j: int| 0 <= j < i ==> self.items()[j].id != id@,
            decreases self.items@.len() - i,
        {
            assert(self.items()[i as int] == self.items@[i as int]@);
            if str_eq(self.items[i].id.as_str(), id) {
                assert(ids_distinct(self.items()));
                let ghost c = choose|j: int| 0 <= j < self.items().len() && self.items()[j].id == id@;
                assert(c == i);
                return Some(i);
            }
            i = i + 1;
        }
        None
    }

    fn bump(&mut self, k: &ItemType, up: bool)
        requires
            up ==> old(self).total_items < usize::MAX && old(self).apps < usize::MAX
                && old(self).files < usize::MAX && old(self).snippets < usize::MAX,
            !up ==> old(self).total_items > 0,
            !up && k@ == ItemTypeView::Application ==> old(self).apps > 0,
            !up && k@ == ItemTypeView::File ==> old(self).files > 0,
            !up && k@ == ItemTypeView::Snippet ==> old(self).snippets > 0,
        ensures
            final(self).items == old(self).items,
            final(self).total_items == if up { old(self).total_items + 1 } else { old(self).total_items - 1 },
            final(self).apps == if k@ == ItemTypeView::Application {
                if up { old(self).apps + 1 } else { old(self).apps - 1 }
            } else {
                old(self).apps as int
            },
            final(self).files == if k@ == ItemTypeView::File {
                if up { old(self).files + 1 } else { old(self).files - 1 }
            } else {
                old(self).files as int
            },
            final(self).snippets == if k@ == ItemTypeView::Snippet {
                if up { old(self).snippets + 1 } else { old(self).snippets - 1 }
            } else {
                old(self).snippets as int
            },
    {
        if up {
            self.total_items = self.total_items + 1;
        } else {
            self.total_items = self.total_items - 1;
        }
        match k {
            ItemType::Application => {
                if up {
                    self.apps = self.apps + 1;
                } else {
                    self.apps = self.apps - 1;
                }
            },
            ItemType::File => {
                if up {
                    self.files = self.files + 1;
                } else {
                    self.files = self.files - 1;
                }
            },
            ItemType::Snippet => {
                if up {
                    self.snippets = self.snippets + 1;
                } else {
                    self.snippets = self.snippets - 1;
                }
            },
            _ => {},
        }
    }

    /// Inserts `item`, replacing the item with the same identifier if there is one.
    pub fn add_item(&mut self, item: IndexedItem)
        requires
            old(self).wf(),
            old(self).items().len() < usize::MAX,
        ensures
            final(self).wf(),
            ids_distinct(final(self).items()),
            match position_of(old(self).items(), item@.id) {
                Some(p) => final(self).items() == old(self).items().update(p, item@),
                None => final(self).items() == old(self).items().push(item@),
            },
    {
        let ghost v = self.items();
        proof {
            lemma_count_bound(v, ItemTypeView::Application);
            lemma_count_bound(v, ItemTypeView::File);
            lemma_count_bound(v, ItemTypeView::Snippet);
        }
        match self.find(item.id.as_str()) {
            Some(p) => {
                let ghost xv = item@;
                let ghost oldv = v[p as int];
                proof {
                    lemma_count_update(v, p as int, xv, ItemTypeView::Application);
                    lemma_count_update(v, p as int, xv, ItemTypeView::File);
                    lemma_count_update(v, p as int, xv, ItemTypeView::Snippet);
                    lemma_count_remove(v, p as int, ItemTypeView::Application);
                    lemma_count_remove(v, p as int, ItemTypeView::File);
                    lemma_count_remove(v, p as int, ItemTypeView::Snippet);
                    assert(self.items@[p as int]@ == v[p as int]);
                }
                let old_kind = self.items[p].item_type.duplicate();
                self.bump(&old_kind, false);
                let new_kind = item.item_type.duplicate();
                self.items.set(p, item);
                self.bump(&new_kind, true);
                assert(self.items() =~= v.update(p as int, xv));
                assert forall|i: int, j: int| 0 <= i < j < self.items().len() implies self.items()[i].id
                    != self.items()[j].id by {
                    assert(v[p as int].id == xv.id);
                }
            },
            None => {
                let ghost xv = item@;
                proof {
                    lemma_count_push(v, xv, ItemTypeView::Application);
                    lemma_count_push(v, xv, ItemTypeView::File);
                    lemma_count_push(v, xv, ItemTypeView::Snippet);
                }
                let new_kind = item.item_type.duplicate();
                self.items.push(item);
                self.bump(&new_kind, true);
                assert(self.items() =~= v.push(xv));
            },
        }
    }

    /// Inserts each item in turn, as `add_item` does.
    pub fn add_items(&mut self, items: Vec<IndexedItem>)
        requires
            old(self).wf(),
            old(self).items().len() + items@.len() < usize::MAX,
        ensures
            final(self).wf(),
            final(self).items() == add_all(old(self).items(), items_view(items@)),
    {
        let ghost all = items_view(items@);
        let mut i: usize = 0;
        while i < items.len()
            invariant
                self.wf(),
                all == items_view(items@),
                i <= all.len(),
                self.items().len() <= old(self).items().len() + i,
                old(self).items().len() + all.len() < usize::MAX,
                self.items() == add_all(old(self).items(), all.subrange(0, i as int)),
            decreases all.len() - i,
        {
            let item = items[i].duplicate();
            proof {
                assert(item@ == all[i as int]);
                assert(all.subrange(0, i + 1).drop_last() =~= all.subrange(0, i as int));
            }
            self.add_item(item);
            i = i + 1;
        }
        assert(all.subrange(0, all.len() as int) =~= all);
    }

    /// Removes the item with identifier `id` and returns it.
    pub fn remove_item(&mut self, id: &str) -> (r: Option<IndexedItem>)
        requires
            old(self).wf(),
        ensures
            final(self).wf(),
            match position_of(old(self).items(), id@) {
                Some(p) => r matches Some(x) && x@ == old(self).items()[p] && final(self).items()
                    == old(self).items().remove(p),
                None => r is None && final(self).items() == old(self).items(),
            },
    {
        let ghost v = self.items();
        match self.find(id) {
            None => None,
            Some(p) => {
                proof {
                    lemma_count_remove(v, p as int, ItemTypeView::Application);
                    lemma_count_remove(v, p as int, ItemTypeView::File);
                    lemma_count_remove(v, p as int, ItemTypeView::Snippet);
                }
                let x = self.items.remove(p);
                assert(x@ == v[p as int]);
                let k = x.item_type.duplicate();
                self.bump(&k, false);
                assert(self.items() =~= v.remove(p as int));
                assert forall|i: int, j: int| 0 <= i < j < self.items().len() implies self.items()[i].id
                    != self.items()[j].id by {
                    if i < p {
                        if j < p {
                        } else {
                            assert(self.items()[j] == v[j + 1]);
                        }
                    } else {
                        assert(self.items()[i] == v[i + 1]);
                        assert(self.items()[j] == v[j + 1]);
                    }
                }
                Some(x)
            },
        }
    }

    /// Removes each identifier in turn; returns how many items were removed.
    pub fn remove_items(&mut self, ids: &Vec<String>) -> (r: usize)
        requires
            old(self).wf(),
        ensures
            final(self).wf(),
            r == old(self).items().len() - final(self).items().len(),
    {
        let mut removed: usize = 0;
        let mut i: usize = 0;
        assert(old(self).items().len() == old(self).total_items);
        while i < ids.len()
            invariant
                self.wf(),
                i <= ids@.len(),
                self.items().len() <= old(self).items().len(),
                old(self).items().len() <= usize::MAX,
                removed == old(self).items().len() - self.items().len(),
            decreases ids@.len() - i,
        {
            let x = self.remove_item(ids[i].as_str());
            if x.is_some() {
                removed = removed + 1;
            }
            i = i + 1;
        }
        removed
    }

    /// Removes every item of kind `item_type` and returns how many there were.
    pub fn clear_by_type(&mut self, item_type: &ItemType) -> (r: usize)
        requires
            old(self).wf(),
        ensures
            final(self).wf(),
            final(self).items() == old(self).items().filter(|x: IndexedItemView| x.item_type != item_type@),
            r == old(self).items().len() - final(self).items().len(),
    {
        let ghost v = self.items();
        let ghost pred = |x: IndexedItemView| x.item_type != item_type@;
        let mut fresh = Indexer::new();
        let mut count: usize = 0;
        let mut i: usize = 0;
        while i < self.items.len()
            invariant
                v == self.items(),
                ids_distinct(v),
                pred == (|x: IndexedItemView| x.item_type != item_type@),
                fresh.wf(),
                i <= v.len(),
                fresh.items() == v.subrange(0, i as int).filter(pred),
                count == i - fresh.items().len(),
                fresh.items().len() <= i,
            decreases v.len() - i,
        {
            let ghost w = v.subrange(0, i + 1);
            proof {
                reveal(Seq::filter);
                assert(w.drop_last() =~= v.subrange(0, i as int));
                assert(w.last() == self.items@[i as int]@);
                v.subrange(0, i as int).lemma_filter_len(pred);
            }
            if self.items[i].item_type.same_as(item_type) {
                count = count + 1;
                assert(fresh.items() =~= w.filter(pred));
            } else {
                let x = self.items[i].duplicate();
                proof {
                    assert forall|j: int| 0 <= j < fresh.items().len() implies fresh.items()[j].id
                        != x@.id by {
                        v.subrange(0, i as int).lemma_filter_contains_rev(pred, fresh.items()[j]);
                        let t = choose|t: int| 0 <= t < i && v.subrange(0, i as int)[t] == fresh.items()[j];
                        assert(v[t] == fresh.items()[j]);
                    }
                }
                fresh.add_item(x);
                assert(fresh.items() =~= w.filter(pred));
            }
            i = i + 1;
        }
        assert(v.subrange(0, v.len() as int) =~= v);
        *self = fresh;
        count
    }

    /// A copy of the item with identifier `id`.
    pub fn get_item(&self, id: &str) -> (r: Option<IndexedItem>)
        requires
            self.wf(),
        ensures
            match position_of(self.items(), id@) {
                Some(p) => r matches Some(x) && x@ == self.items()[p],
                None => r is None,
            },
    {
        match self.find(id) {
            Some(p) => Some(self.items[p].duplicate()),
            None => None,
        }
    }

    /// The items, in insertion order.
    pub fn items_iter(&self) -> (r: &Vec<IndexedItem>)
        ensures
            items_view(r@) == self.items(),
    {
        &self.items
    }

    /// Copies of the items of kind `item_type`, in order.
    pub fn get_items_by_type(&self, item_type: &ItemType) -> (r: Vec<IndexedItem>)
        ensures
            items_view(r@) == self.items().filter(|x: IndexedItemView| x.item_type == item_type@),
    {
        let ghost v = self.items();
        let ghost pred = |x: IndexedItemView| x.item_type == item_type@;
        let mut out: Vec<IndexedItem> = Vec::new();
        let mut i: usize = 0;
        while i < self.items.len()
            invariant
                v == self.items(),
                pred == (|x: IndexedItemView| x.item_type == item_type@),
                i <= v.len(),
                items_view(out@) == v.subrange(0, i as int).filter(pred),
            decreases v.len() - i,
        {
            let ghost w = v.subrange(0, i + 1);
            proof {
                reveal(Seq::filter);
                assert(w.drop_last() =~= v.subrange(0, i as int));
                assert(w.last() == self.items@[i as int]@);
            }
            if self.items[i].item_type.same_as(item_type) {
                out.push(self.items[i].duplicate());
            }
            assert(items_view(out@) =~= w.filter(pred));
            i = i + 1;
        }
        assert(v.subrange(0, v.len() as int) =~= v);
        out
    }

    /// Removes every item and resets the counters.
    pub fn clear(&mut self)
        ensures
            final(self).wf(),
            final(self).items() == Seq::<IndexedItemView>::empty(),
    {
        *self = Indexer::new();
    }

    /// The counters: (total, applications, files, snippets).
    pub fn stats(&self) -> (r: (usize, usize, usize, usize))
        requires
            self.wf(),
        ensures
            r.0 == self.counts().0 && r.1 == self.counts().1 && r.2 == self.counts().2 && r.3
                == self.counts().3,
    {
        (self.total_items, self.apps, self.files, self.snippets)
    }
}

/// The items after adding `added` one by one.
pub open spec fn add_all(items: Seq<IndexedItemView>, added: Seq<IndexedItemView>) -> Seq<IndexedItemView>
    decreases added.len(),
{
    if added.len() == 0 {
        items
    } else {
        let before = add_all(items, added.drop_last());
        match position_of(before, added.last().id) {
            Some(p) => before.update(p, added.last()),
            None => before.push(added.last()),
        }
    }
}

/// After an item is added, looking up its identifier finds exactly that item.
pub proof fn lemma_added_item_found(before: Seq<IndexedItemView>, after: Seq<IndexedItemView>, x: IndexedItemView)
    requires
        ids_distinct(after),
        match position_of(before, x.id) {
            Some(p) => after == before.update(p, x),
            None => after == before.push(x),
        },
    ensures
        position_of(after, x.id) matches Some(q) && after[q] == x,
{
    let k = match position_of(before, x.id) {
        Some(p) => p,
        None => before.len() as int,
    };
    assert(0 <= k < after.len() && after[k] == x);
    assert(exists|i: int| 0 <= i < after.len() && after[i].id == x.id);
    let q = choose|i: int| 0 <= i < after.len() && after[i].id == x.id;
    assert(q == k);
}

} // verus!

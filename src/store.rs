//! The record store: an ordered collection of records and the operations on it.
//! Saving the records to disk and loading them back is done by the caller.
use vstd::prelude::*;

verus! {

/// What every record store offers.
pub trait Storage<T> {
    /// The records, in order.
    spec fn records(&self) -> Seq<T>;

    /// Appends `item`.
    fn add(&mut self, item: T)
        ensures
            final(self).records() == old(self).records().push(item),
    ;

    /// The records.
    fn get_all(&self) -> (r: &Vec<T>)
        ensures
            r@ == self.records(),
    ;

    /// Removes every record.
    fn clear(&mut self)
        ensures
            final(self).records() == Seq::<T>::empty(),
    ;

    /// The number of records.
    fn len(&self) -> (r: usize)
        ensures
            r == self.records().len(),
    ;

    /// Whether there are no records.
    fn is_empty(&self) -> (r: bool)
        ensures
            r == (self.records().len() == 0),
    ;

    /// Where the records are kept on disk.
    fn path(&self) -> (r: &str);
}

/// An ordered collection of records, with the path of the file that holds them.
pub struct RecordStore<T> {
    items: Vec<T>,
    path: String,
}

impl<T> RecordStore<T> {
    /// The records, in order.
    pub closed spec fn items(&self) -> Seq<T> {
        self.items@
    }

    /// The records as the vector that holds them.
    pub closed spec fn records_vec(&self) -> Vec<T> {
        self.items
    }

    /// The path of the file that holds the records.
    pub closed spec fn file(&self) -> Seq<char> {
        self.path@
    }

    /// A store for `path` holding `items` (as loaded from it, or none).
    pub fn new(path: String, items: Vec<T>) -> (r: Self)
        ensures
            r.items() == items@,
            r.file() == path@,
    {
        RecordStore { items, path }
    }

    /// Appends `item`.
    pub fn add(&mut self, item: T)
        ensures
            final(self).items() == old(self).items().push(item),
            final(self).file() == old(self).file(),
    {
        self.items.push(item);
    }

    /// Puts `item` first.
    pub fn insert_at_front(&mut self, item: T)
        ensures
            final(self).items() == seq![item] + old(self).items(),
            final(self).file() == old(self).file(),
    {
        self.items.insert(0, item);
        assert(self.items@ =~= seq![item] + old(self).items@);
    }

    /// The records.
    pub fn get_all(&self) -> (r: &Vec<T>)
        ensures
            r@ == self.items(),
    {
        &self.items
    }

    /// The number of records.
    pub fn len(&self) -> (r: usize)
        ensures
            r == self.items().len(),
    {
        self.items.len()
    }

    /// Whether there are no records.
    pub fn is_empty(&self) -> (r: bool)
        ensures
            r == (self.items().len() == 0),
    {
        self.items.len() == 0
    }

    /// Removes every record.
    pub fn clear(&mut self)
        ensures
            final(self).items() == Seq::<T>::empty(),
            final(self).file() == old(self).file(),
    {
        self.items.clear();
    }

    /// Keeps the first `max` records and returns the ones dropped, in order.
    pub fn trim_to(&mut self, max: usize) -> (r: Vec<T>)
        ensures
            max < old(self).items().len() ==> final(self).items() == old(self).items().subrange(0, max as int)
                && r@ == old(self).items().subrange(max as int, old(self).items().len() as int),
            max >= old(self).items().len() ==> final(self).items() == old(self).items() && r@.len() == 0,
            final(self).file() == old(self).file(),
    {
        if max < self.items.len() {
            self.items.split_off(max)
        } else {
            Vec::new()
        }
    }

    /// The position of the first record for which `predicate` holds.
    pub fn find_index<F: Fn(&T) -> bool>(&self, predicate: F) -> (r: Option<usize>)
        requires
            forall|x: &T| #[trigger] predicate.requires((x,)),
        ensures
            r matches Some(i) ==> i < self.items().len() && predicate.ensures((&self.items()[i as int],), true),
            forall|j: int|
                0 <= j < (match r {
                    Some(i) => i as int,
                    None => self.items().len() as int,
                }) ==> predicate.ensures((&self.items()[j],), false),
    {
        let mut i: usize = 0;
        while i < self.items.len()
            invariant
                i <= self.items@.len(),
                forall|x: &T| #[trigger] predicate.requires((x,)),
                forall|j: int| 0 <= j < i ==> predicate.ensures((&self.items@[j],), false),
            decreases self.items@.len() - i,
        {
            if predicate(&self.items[i]) {
                return Some(i);
            }
            i = i + 1;
        }
        None
    }

    /// The records from `start`, at most `count` of them, as clones.
    pub fn get_range(&self, start: usize, count: usize) -> (r: Vec<T>)
        where
            T: Clone,
        ensures
            r@.len() == if start >= self.items().len() {
                0
            } else if count < self.items().len() - start {
                count as int
            } else {
                self.items().len() - start
            },
            forall|j: int| 0 <= j < r@.len() ==> cloned::<T>(self.items()[start + j], #[trigger] r@[j]),
    {
        let n = self.items.len();
        let end = if start >= n {
            start
        } else if count < n - start {
            start + count
        } else {
            n
        };
        let mut r: Vec<T> = Vec::new();
        let mut i: usize = start;
        while i < end
            invariant
                n == self.items@.len(),
                start <= i <= end,
                end <= n || end == start,
                r@.len() == i - start,
                forall|j: int| 0 <= j < r@.len() ==> cloned::<T>(self.items@[start + j], #[trigger] r@[j]),
            decreases end - i,
        {
            r.push(self.items[i].clone());
            i = i + 1;
        }
        r
    }

    /// Where the records are kept on disk.
    pub fn path(&self) -> (r: &str)
        ensures
            r@ == self.file(),
    {
        self.path.as_str()
    }

    /// Hands the records to `updater`, which returns the new records and whether it
    /// changed anything (the caller saves the store when it did).
    pub fn update<F: FnOnce(Vec<T>) -> (Vec<T>, bool)>(&mut self, updater: F) -> (r: bool)
        requires
            updater.requires((old(self).records_vec(),)),
        ensures
            exists|out: (Vec<T>, bool)|
                #![trigger updater.ensures((old(self).records_vec(),), out)]
                updater.ensures((old(self).records_vec(),), out) && final(self).items() == out.0@
                    && r == out.1,
            final(self).file() == old(self).file(),
    {
        let mut taken: Vec<T> = Vec::new();
        std::mem::swap(&mut taken, &mut self.items);
        let out = updater(taken);
        let ghost g = out;
        let (items, modified) = out;
        self.items = items;
        assert(updater.ensures((old(self).records_vec(),), g));
        modified
    }

    /// Clones of the records for which `predicate` holds, in order.
    pub fn get_filtered<F: Fn(&T) -> bool>(&self, predicate: F) -> (r: Vec<T>)
        where
            T: Clone,
        requires
            forall|x: &T| #[trigger] predicate.requires((x,)),
        ensures
            exists|picked: Seq<bool>|
                #![trigger pick(self.items(), picked)]
                picked.len() == self.items().len() && r@.len() == pick(self.items(), picked).len()
                    && (forall|i: int|
                    0 <= i < picked.len() ==> predicate.ensures((&self.items()[i],), #[trigger] picked[i]))
                    && forall|j: int|
                    0 <= j < r@.len() ==> cloned::<T>(pick(self.items(), picked)[j], #[trigger] r@[j]),
    {
        let ghost mut picked: Seq<bool> = Seq::empty();
        let mut out: Vec<T> = Vec::new();
        let mut i: usize = 0;
        while i < self.items.len()
            invariant
                forall|x: &T| #[trigger] predicate.requires((x,)),
                i <= self.items@.len(),
                picked.len() == i,
                out@.len() == pick(self.items@.subrange(0, i as int), picked).len(),
                forall|j: int|
                    0 <= j < i ==> predicate.ensures((&self.items@[j],), #[trigger] picked[j]),
                forall|j: int|
                    0 <= j < out@.len() ==> cloned::<T>(
                        pick(self.items@.subrange(0, i as int), picked)[j],
                        #[trigger] out@[j],
                    ),
            decreases self.items@.len() - i,
        {
            let keep = predicate(&self.items[i]);
            let ghost before = pick(self.items@.subrange(0, i as int), picked);
            if keep {
                out.push(self.items[i].clone());
            }
            proof {
                let w = self.items@.subrange(0, i + 1);
                let p2 = picked.push(keep);
                assert(w.drop_last() =~= self.items@.subrange(0, i as int));
                assert(p2.drop_last() =~= picked);
                assert(w.last() == self.items@[i as int]);
                picked = p2;
            }
            i = i + 1;
        }
        assert(self.items@.subrange(0, self.items@.len() as int) =~= self.items@);
        assert(pick(self.items(), picked).len() == out@.len());
        assert(forall|j: int|
            0 <= j < out@.len() ==> cloned::<T>(pick(self.items(), picked)[j], #[trigger] out@[j]));
        out
    }

    /// Replaces record `i`.
    pub fn set(&mut self, i: usize, item: T)
        requires
            i < old(self).items().len(),
        ensures
            final(self).items() == old(self).items().update(i as int, item),
            final(self).file() == old(self).file(),
    {
        self.items.set(i, item);
    }

    /// Replaces all records.
    pub fn replace_all(&mut self, items: Vec<T>)
        ensures
            final(self).items() == items@,
            final(self).file() == old(self).file(),
    {
        self.items = items;
    }
}

impl<T> Storage<T> for RecordStore<T> {
    open spec fn records(&self) -> Seq<T> {
        self.items()
    }

    fn add(&mut self, item: T) {
        RecordStore::add(self, item)
    }

    fn get_all(&self) -> (r: &Vec<T>) {
        RecordStore::get_all(self)
    }

    fn clear(&mut self) {
        RecordStore::clear(self)
    }

    fn len(&self) -> (r: usize) {
        RecordStore::len(self)
    }

    fn is_empty(&self) -> (r: bool) {
        RecordStore::is_empty(self)
    }

    fn path(&self) -> (r: &str) {
        RecordStore::path(self)
    }
}

/// After adding `x`, the store holds `x` and its length is the number of records;
/// after clearing, it holds nothing.
pub proof fn lemma_add_clear<T>(before: Seq<T>, x: T, after_add: Seq<T>, after_clear: Seq<T>)
    requires
        after_add == before.push(x),
        after_clear == Seq::<T>::empty(),
    ensures
        after_add.contains(x),
        after_add.len() == before.len() + 1,
        after_clear.len() == 0,
{
    assert(after_add[before.len() as int] == x);
}

/// The records whose flag in `picked` is set, in order.
pub open spec fn pick<T>(v: Seq<T>, picked: Seq<bool>) -> Seq<T>
    decreases v.len(),
{
    if v.len() == 0 || picked.len() == 0 {
        Seq::empty()
    } else {
        let before = pick(v.drop_last(), picked.drop_last());
        if picked.last() {
            before.push(v.last())
        } else {
            before
        }
    }
}

} // verus!

//! Stored snippets: text expansions with a trigger, a category and an on/off switch.
use vstd::prelude::*;
use vstd::string::*;

use crate::store::RecordStore;
use crate::text::str_eq;

verus! {

/// A stored snippet.
#[derive(Debug, Clone, PartialEq, Eq)]
pub struct Snippet {
    pub id: String,
    pub trigger: String,
    pub content: String,
    pub enabled: bool,
    pub category: String,
}

/// A lower-case hexadecimal digit.
pub open spec fn is_lower_hex(c: char) -> bool {
    ('0' <= c <= '9') || ('a' <= c <= 'f')
}

/// The hyphenated lower-case form of a version-4 UUID: groups of 8, 4, 4, 4 and 12 hex
/// digits, version digit `4`, variant digit one of `8 9 a b`.
pub open spec fn is_uuid_v4_text(s: Seq<char>) -> bool {
    &&& s.len() == 36
    &&& s[8] == '-' && s[13] == '-' && s[18] == '-' && s[23] == '-'
    &&& s[14] == '4'
    &&& (s[19] == '8' || s[19] == '9' || s[19] == 'a' || s[19] == 'b')
    &&& forall|i: int|
        0 <= i < 36 && i != 8 && i != 13 && i != 18 && i != 23 ==> #[trigger] is_lower_hex(s[i])
}

/// Relies on `uuid::Uuid::new_v4` (random bits with version 4 and the RFC variant set)
/// and its `Display`, the hyphenated lower-case form.
#[verifier::external_body]
fn new_uuid() -> (r: String)
    ensures
        is_uuid_v4_text(r@),
{
    uuid::Uuid::new_v4().to_string()
}

impl Snippet {
    /// An enabled snippet in category "General" with a fresh random identifier.
    pub fn new(trigger: String, content: String) -> (r: Self)
        ensures
            r.trigger@ == trigger@,
            r.content@ == content@,
            r.enabled,
            r.category@ == "General"@,
            is_uuid_v4_text(r.id@),
    {
        Snippet { id: new_uuid(), trigger, content, enabled: true, category: String::from_str("General") }
    }

    /// An enabled snippet in `category` with a fresh random identifier.
    pub fn with_category(trigger: String, content: String, category: String) -> (r: Self)
        ensures
            r.trigger@ == trigger@,
            r.content@ == content@,
            r.enabled,
            r.category@ == category@,
            is_uuid_v4_text(r.id@),
    {
        Snippet { id: new_uuid(), trigger, content, enabled: true, category }
    }

    /// A snippet with every field given.
    pub fn with_all(id: String, trigger: String, content: String, enabled: bool, category: String) -> (r: Self)
        ensures
            r == (Snippet { id, trigger, content, enabled, category }),
    {
        Snippet { id, trigger, content, enabled, category }
    }
}

fn copy_snippet(s: &Snippet) -> (r: Snippet)
    ensures
        r == *s,
{
    Snippet {
        id: s.id.clone(),
        trigger: s.trigger.clone(),
        content: s.content.clone(),
        enabled: s.enabled,
        category: s.category.clone(),
    }
}

/// The snippets, kept in a record store.
pub struct SnippetStorage {
    storage: RecordStore<Snippet>,
}

impl SnippetStorage {
    /// The snippets, in order.
    pub closed spec fn snippets(&self) -> Seq<Snippet> {
        self.storage.items()
    }

    /// A store over the snippets loaded from `path`.
    pub fn new(path: String, loaded: Vec<Snippet>) -> (r: Self)
        ensures
            r.snippets() == loaded@,
    {
        SnippetStorage { storage: RecordStore::new(path, loaded) }
    }

    /// The snippets.
    pub fn get_all(&self) -> (r: &Vec<Snippet>)
        ensures
            r@ == self.snippets(),
    {
        self.storage.get_all()
    }

    /// The enabled snippets, in order.
    pub fn get_enabled(&self) -> (r: Vec<Snippet>)
        ensures
            r@ == self.snippets().filter(|s: Snippet| s.enabled),
    {
        let v = self.storage.get_all();
        let ghost pred = |s: Snippet| s.enabled;
        let mut out: Vec<Snippet> = Vec::new();
        let mut i: usize = 0;
        while i < v.len()
            invariant
                v@ == self.snippets(),
                pred == (|s: Snippet| s.enabled),
                i <= v@.len(),
                out@ == v@.subrange(0, i as int).filter(pred),
            decreases v@.len() - i,
        {
            proof {
                reveal(Seq::filter);
                assert(v@.subrange(0, i + 1).drop_last() =~= v@.subrange(0, i as int));
            }
            if v[i].enabled {
                out.push(copy_snippet(&v[i]));
            }
            assert(out@ =~= v@.subrange(0, i + 1).filter(pred));
            i = i + 1;
        }
        assert(v@.subrange(0, v@.len() as int) =~= v@);
        out
    }

    /// Appends `snippet`.
    pub fn add(&mut self, snippet: Snippet)
        ensures
            final(self).snippets() == old(self).snippets().push(snippet),
    {
        self.storage.add(snippet);
    }

    /// Replaces the first snippet with the same identifier; returns whether one was found.
    pub fn update(&mut self, snippet: Snippet) -> (r: bool)
        ensures
            r == exists|i: int| 0 <= i < old(self).snippets().len() && old(self).snippets()[i].id@ == snippet.id@,
            r ==> exists|i: int|
                0 <= i < old(self).snippets().len() && old(self).snippets()[i].id@ == snippet.id@
                    && final(self).snippets() == old(self).snippets().update(i, snippet),
            !r ==> final(self).snippets() == old(self).snippets(),
    {
        let n = self.storage.len();
        let mut i: usize = 0;
        while i < n
            invariant
                n == self.snippets().len(),
                self.snippets() == old(self).snippets(),
                i <= n,
                forall|j: int| 0 <= j < i ==> self.snippets()[j].id@ != snippet.id@,
            decreases n - i,
        {
            if str_eq(self.storage.get_all()[i].id.as_str(), snippet.id.as_str()) {
                self.storage.set(i, snippet);
                return true;
            }
            i = i + 1;
        }
        false
    }

    /// Removes every snippet with identifier `id`; returns whether any was removed.
    pub fn delete(&mut self, id: &str) -> (r: bool)
        ensures
            final(self).snippets() == old(self).snippets().filter(|s: Snippet| s.id@ != id@),
            r == (final(self).snippets().len() != old(self).snippets().len()),
    {
        let ghost pred = |s: Snippet| s.id@ != id@;
        let ghost v = self.snippets();
        let n = self.storage.len();
        let mut kept: Vec<Snippet> = Vec::new();
        let mut i: usize = 0;
        while i < n
            invariant
                n == v.len(),
                v == self.snippets(),
                pred == (|s: Snippet| s.id@ != id@),
                i <= n,
                kept@ == v.subrange(0, i as int).filter(pred),
            decreases n - i,
        {
            proof {
                reveal(Seq::filter);
                assert(v.subrange(0, i + 1).drop_last() =~= v.subrange(0, i as int));
            }
            let s = copy_snippet(&self.storage.get_all()[i]);
            if !str_eq(s.id.as_str(), id) {
                kept.push(s);
            }
            assert(kept@ =~= v.subrange(0, i + 1).filter(pred));
            i = i + 1;
        }
        assert(v.subrange(0, n as int) =~= v);
        let after = kept.len();
        self.storage.replace_all(kept);
        n != after
    }

    /// Adds `imported` after the current snippets, or in their place when `merge` is
    /// false. Returns how many were added.
    pub fn import_snippets(&mut self, imported: Vec<Snippet>, merge: bool) -> (r: usize)
        ensures
            final(self).snippets() == if merge {
                old(self).snippets() + imported@
            } else {
                imported@
            },
            r == imported@.len(),
    {
        if !merge {
            self.storage.clear();
        }
        let ghost base = self.snippets();
        let mut count: usize = 0;
        while count < imported.len()
            invariant
                base == if merge { old(self).snippets() } else { Seq::<Snippet>::empty() },
                count <= imported@.len(),
                self.snippets() == base + imported@.subrange(0, count as int),
            decreases imported@.len() - count,
        {
            self.storage.add(copy_snippet(&imported[count]));
            count = count + 1;
            assert(self.snippets() =~= base + imported@.subrange(0, count as int));
        }
        assert(imported@.subrange(0, imported@.len() as int) =~= imported@);
        assert(base + imported@ =~= if merge { old(self).snippets() + imported@ } else { imported@ });
        count
    }

    /// The number of snippets.
    pub fn len(&self) -> (r: usize)
        ensures
            r == self.snippets().len(),
    {
        self.storage.len()
    }

    /// Whether there are no snippets.
    pub fn is_empty(&self) -> (r: bool)
        ensures
            r == (self.snippets().len() == 0),
    {
        self.storage.is_empty()
    }
}

} // verus!

//! The file index: entries keyed by normalised path, with a change generation.
use vstd::prelude::*;
use vstd::string::*;

use crate::text::{str_eq, strings_view, substring};

verus! {

/// An indexed file: its absolute path and its final component.
#[derive(Debug, Clone, PartialEq, Eq)]
pub struct FileEntry {
    pub path: String,
    pub name: String,
}

pub ghost struct FileEntryView {
    pub path: Seq<char>,
    pub name: Seq<char>,
}

impl View for FileEntry {
    type V = FileEntryView;

    open spec fn view(&self) -> FileEntryView {
        FileEntryView { path: self.path@, name: self.name@ }
    }
}

pub open spec fn entries_view(v: Seq<FileEntry>) -> Seq<FileEntryView> {
    v.map_values(|e: FileEntry| e@)
}

impl FileEntry {
    pub fn duplicate(&self) -> (r: Self)
        ensures
            r@ == self@,
    {
        FileEntry { path: self.path.clone(), name: self.name.clone() }
    }
}

/// The file index's settings.
#[derive(Debug, Clone, PartialEq, Eq)]
pub struct FileIndexerConfig {
    pub enabled: bool,
    pub directories: Vec<String>,
    pub extensions: Vec<String>,
    pub max_files: usize,
    pub max_depth: usize,
    pub index_hidden: bool,
    pub exclude_dirs: Vec<String>,
}

/// At most this many files are indexed by default.
pub const DEFAULT_MAX_FILES: usize = 10000;

/// Directories are walked at most this deep by default.
pub const DEFAULT_MAX_DEPTH: usize = 5;

/// Entries are inserted in batches of this size during a scan.
pub const BATCH_SIZE: usize = 1000;

fn push_all(v: &mut Vec<String>, items: &[&str])
    ensures
        strings_view(final(v)@) == strings_view(old(v)@) + items@.map_values(|s: &str| s@),
{
    let mut i: usize = 0;
    while i < items.len()
        invariant
            i <= items@.len(),
            strings_view(v@) == strings_view(old(v)@) + items@.subrange(0, i as int).map_values(
                |s: &str| s@,
            ),
        decreases items@.len() - i,
    {
        let ghost before = strings_view(v@);
        v.push(String::from_str(items[i]));
        assert(items@.subrange(0, i + 1).map_values(|s: &str| s@) =~= items@.subrange(0, i as int).map_values(
            |s: &str| s@,
        ).push(items@[i as int]@));
        assert(strings_view(v@) =~= before.push(items@[i as int]@));
        i = i + 1;
    }
    assert(items@.subrange(0, items@.len() as int) =~= items@);
}

impl Default for FileIndexerConfig {
    /// Disabled, no directories, common document and source extensions, 10 000 files,
    /// depth 5, hidden entries skipped, build and version-control directories excluded.
    fn default() -> (r: Self)
        ensures
            !r.enabled,
            r.directories@.len() == 0,
            r.max_files == DEFAULT_MAX_FILES,
            r.max_depth == DEFAULT_MAX_DEPTH,
            !r.index_hidden,
            r.extensions@.len() == 31,
            r.exclude_dirs@.len() == 11,
    {
        let mut extensions: Vec<String> = Vec::new();
        push_all(&mut extensions, &[
            "txt", "md", "pdf", "doc", "docx", "xls", "xlsx", "ppt", "pptx", "csv", "json", "xml",
            "html", "css", "js", "ts", "py", "rs", "go", "java", "c", "cpp", "h", "hpp", "swift",
            "yaml", "yml", "toml", "ini", "cfg", "conf",
        ]);
        let mut exclude_dirs: Vec<String> = Vec::new();
        push_all(&mut exclude_dirs, &[
            "node_modules", ".git", ".svn", ".hg", "target", "build", "dist", ".cache", "Library",
            ".Trash", ".cargo",
        ]);
        FileIndexerConfig {
            enabled: false,
            directories: Vec::new(),
            extensions,
            max_files: DEFAULT_MAX_FILES,
            max_depth: DEFAULT_MAX_DEPTH,
            index_hidden: false,
            exclude_dirs,
        }
    }
}

/// The key under which a path is indexed. Paths are used as they are: case folding
/// and Unicode normalisation are a concern of case-insensitive file systems only.
pub fn normalize_path(path: &str) -> (r: String)
    ensures
        r@ == path@,
{
    String::from_str(path)
}

/// The position of the last `c` in `s`, if any.
pub open spec fn last_index_of(s: Seq<char>, c: char) -> Option<int>
    decreases s.len(),
{
    if s.len() == 0 {
        None
    } else if s.last() == c {
        Some(s.len() - 1)
    } else {
        last_index_of(s.drop_last(), c)
    }
}

proof fn lemma_last_index_bounds(s: Seq<char>, c: char)
    ensures
        last_index_of(s, c) matches Some(k) ==> 0 <= k < s.len() && s[k] == c,
    decreases s.len(),
{
    if s.len() > 0 && s.last() != c {
        lemma_last_index_bounds(s.drop_last(), c);
    }
}

fn find_last(s: &Vec<char>, c: char) -> (r: Option<usize>)
    ensures
        match last_index_of(s@, c) {
            Some(k) => 0 <= k < s@.len() && r == Some(k as usize),
            None => r is None,
        },
        r matches Some(k) ==> k < s@.len(),
{
    let mut n: usize = s.len();
    assert(s@.subrange(0, n as int) =~= s@);
    proof {
        lemma_last_index_bounds(s@, c);
    }
    while n > 0
        invariant
            n <= s@.len(),
            last_index_of(s@, c) == last_index_of(s@.subrange(0, n as int), c),
        decreases n,
    {
        let ghost pre = s@.subrange(0, n as int);
        if s[n - 1] == c {
            assert(pre.last() == c);
            return Some(n - 1);
        }
        assert(pre.drop_last() =~= s@.subrange(0, n - 1));
        n = n - 1;
    }
    None
}

/// The path without trailing slashes.
pub open spec fn trim_trailing_slashes(p: Seq<char>) -> Seq<char>
    decreases p.len(),
{
    if p.len() > 0 && p.last() == '/' {
        trim_trailing_slashes(p.drop_last())
    } else {
        p
    }
}

/// The final component of a path: what follows the last slash once trailing slashes
/// are dropped; none when that is empty or `..`.
pub open spec fn file_name(p: Seq<char>) -> Option<Seq<char>> {
    let t = trim_trailing_slashes(p);
    let name = match last_index_of(t, '/') {
        Some(k) => t.subrange(k + 1, t.len() as int),
        None => t,
    };
    if name.len() == 0 || name == ".."@ {
        None
    } else {
        Some(name)
    }
}

/// The extension of a file name: what follows its last dot, unless that dot starts it.
pub open spec fn extension_of(name: Seq<char>) -> Option<Seq<char>> {
    match last_index_of(name, '.') {
        Some(k) => if k == 0 {
            None
        } else {
            Some(name.subrange(k + 1, name.len() as int))
        },
        None => None,
    }
}

fn file_name_of(path: &str) -> (r: Option<String>)
    ensures
        opt_string(r) == file_name(path@),
{
    let v = crate::text::chars_of(path);
    let mut n: usize = v.len();
    assert(v@.subrange(0, n as int) =~= v@);
    while n > 0 && v[n - 1] == '/'
        invariant
            n <= v@.len(),
            trim_trailing_slashes(path@) == trim_trailing_slashes(v@.subrange(0, n as int)),
            v@ == path@,
        decreases n,
    {
        assert(v@.subrange(0, n as int).drop_last() =~= v@.subrange(0, n - 1));
        n = n - 1;
    }
    proof {
        let pre = v@.subrange(0, n as int);
        if n > 0 {
            assert(pre.last() == v@[n - 1]);
        }
        assert(trim_trailing_slashes(pre) == pre);
    }
    let t = substring(path, 0, n);
    let tv = crate::text::chars_of(t.as_str());
    assert(t@ == trim_trailing_slashes(path@));
    let name = match find_last(&tv, '/') {
        Some(k) => substring(t.as_str(), k + 1, n),
        None => t,
    };
    proof {
        reveal_strlit("..");
    }
    assert(name@ == match last_index_of(t@, '/') {
        Some(k) => t@.subrange(k + 1, t@.len() as int),
        None => t@,
    });
    if name.as_str().unicode_len() == 0 || str_eq(name.as_str(), "..") {
        None
    } else {
        Some(name)
    }
}

pub open spec fn opt_string(o: Option<String>) -> Option<Seq<char>> {
    match o {
        Some(s) => Some(s@),
        None => None,
    }
}

/// ASCII case-insensitive equality of characters.
pub open spec fn chars_eq_ignore_ascii_case(a: Seq<char>, b: Seq<char>) -> bool {
    a.len() == b.len() && forall|i: int| 0 <= i < a.len() ==> lower_char(a[i]) == lower_char(b[i])
}

pub open spec fn lower_char(c: char) -> u32 {
    if 'A' <= c <= 'Z' {
        (c as u32 + 32) as u32
    } else {
        c as u32
    }
}

fn eq_ignore_case(a: &str, b: &str) -> (r: bool)
    ensures
        r == chars_eq_ignore_ascii_case(a@, b@),
{
    let n = a.unicode_len();
    if n != b.unicode_len() {
        return false;
    }
    let mut i: usize = 0;
    while i < n
        invariant
            n == a@.len(),
            n == b@.len(),
            i <= n,
            forall|j: int| 0 <= j < i ==> lower_char(a@[j]) == lower_char(b@[j]),
        decreases n - i,
    {
        let x = a.get_char(i);
        let y = b.get_char(i);
        let lx: u32 = if 'A' <= x && x <= 'Z' { x as u32 + 32 } else { x as u32 };
        let ly: u32 = if 'A' <= y && y <= 'Z' { y as u32 + 32 } else { y as u32 };
        if lx != ly {
            return false;
        }
        i = i + 1;
    }
    true
}

/// Whether the file at `path` has one of `extensions` (ASCII case ignored).
pub open spec fn extension_accepted(path: Seq<char>, extensions: Seq<Seq<char>>) -> bool {
    match file_name(path) {
        Some(name) => match extension_of(name) {
            Some(e) => exists|i: int| 0 <= i < extensions.len() && chars_eq_ignore_ascii_case(#[trigger] extensions[i], e),
            None => false,
        },
        None => false,
    }
}

/// Whether the file at `path` has one of `extensions`.
pub fn accepts_extension(path: &str, extensions: &Vec<String>) -> (r: bool)
    ensures
        r == extension_accepted(path@, strings_view(extensions@)),
{
    let name = match file_name_of(path) {
        Some(n) => n,
        None => return false,
    };
    assert(file_name(path@) == Some(name@));
    let nv = crate::text::chars_of(name.as_str());
    let len = nv.len();
    let k = match find_last(&nv, '.') {
        Some(k) => k,
        None => return false,
    };
    if k == 0 {
        return false;
    }
    let ext = substring(name.as_str(), k + 1, len);
    assert(extension_of(name@) == Some(ext@));
    let mut i: usize = 0;
    while i < extensions.len()
        invariant
            i <= extensions@.len(),
            file_name(path@) == Some(name@),
            extension_of(name@) == Some(ext@),
            forall|j: int| 0 <= j < i ==> !chars_eq_ignore_ascii_case(#[trigger] strings_view(extensions@)[j], ext@),
        decreases extensions@.len() - i,
    {
        if eq_ignore_case(extensions[i].as_str(), ext.as_str()) {
            assert(strings_view(extensions@)[i as int] == extensions@[i as int]@);
            return true;
        }
        i = i + 1;
    }
    false
}

/// Whether a directory entry named `name` is passed over by a scan: hidden entries
/// unless hidden ones are indexed, and excluded directory names.
pub open spec fn skipped(name: Seq<char>, index_hidden: bool, exclude_dirs: Seq<Seq<char>>) -> bool {
    (name.len() > 0 && name[0] == '.' && !index_hidden) || exclude_dirs.contains(name)
}

/// Whether a scan passes over the entry named `name`.
pub fn should_skip(name: &str, config: &FileIndexerConfig) -> (r: bool)
    ensures
        r == skipped(name@, config.index_hidden, strings_view(config.exclude_dirs@)),
{
    if name.unicode_len() > 0 && name.get_char(0) == '.' && !config.index_hidden {
        return true;
    }
    let mut i: usize = 0;
    while i < config.exclude_dirs.len()
        invariant
            i <= config.exclude_dirs@.len(),
            forall|j: int| 0 <= j < i ==> strings_view(config.exclude_dirs@)[j] != name@,
        decreases config.exclude_dirs@.len() - i,
    {
        if str_eq(config.exclude_dirs[i].as_str(), name) {
            assert(strings_view(config.exclude_dirs@)[i as int] == name@);
            return true;
        }
        i = i + 1;
    }
    false
}

impl FileEntry {
    /// The entry for `path`, named by its final component; none when the path has no
    /// usable final component.
    pub fn from_path(path: &str) -> (r: Option<FileEntry>)
        ensures
            match file_name(path@) {
                Some(n) => r matches Some(e) && e.path@ == path@ && e.name@ == n,
                None => r is None,
            },
    {
        match file_name_of(path) {
            Some(name) => Some(FileEntry { path: String::from_str(path), name }),
            None => None,
        }
    }

    /// The key this entry is indexed under.
    pub fn normalized_key(&self) -> (r: String)
        ensures
            r@ == self.path@,
    {
        normalize_path(self.path.as_str())
    }
}

/// The generation after one more change.
pub open spec fn next_generation(g: usize) -> usize {
    if g == usize::MAX {
        0
    } else {
        (g + 1) as usize
    }
}

/// A change reported by the file watcher.
#[derive(Debug, Clone, Copy, PartialEq, Eq)]
pub enum FileEventKind {
    Remove,
    CreateOrModify,
    Other,
}

/// The index of files by path, its change generation, and whether a first scan is due.
pub struct FileIndex {
    entries: Vec<FileEntry>,
    generation: usize,
    needs_initial: bool,
    last_scan: Vec<(String, u64)>,
}

/// The modification time recorded for `root` when it was last scanned, if any.
pub open spec fn recorded_time(v: Seq<(Seq<char>, u64)>, root: Seq<char>) -> Option<u64>
    decreases v.len(),
{
    if v.len() == 0 {
        None
    } else if v[0].0 == root {
        Some(v[0].1)
    } else {
        recorded_time(v.drop_first(), root)
    }
}

/// A root needs a rescan when it was never scanned or has changed since.
pub open spec fn root_changed(recorded: Option<u64>, mtime: u64) -> bool {
    match recorded {
        None => true,
        Some(t) => mtime > t,
    }
}

/// No two entries share a key.
pub open spec fn keys_distinct(v: Seq<FileEntryView>) -> bool {
    forall|i: int, j: int| 0 <= i < j < v.len() ==> v[i].path != v[j].path
}

/// The entries after inserting `e`, replacing the entry with its key if present.
pub open spec fn upsert(v: Seq<FileEntryView>, e: FileEntryView) -> Seq<FileEntryView> {
    if exists|i: int| 0 <= i < v.len() && v[i].path == e.path {
        v.update(choose|i: int| 0 <= i < v.len() && v[i].path == e.path, e)
    } else {
        v.push(e)
    }
}

/// The entries after upserting each of `batch` in turn.
pub open spec fn upsert_all(v: Seq<FileEntryView>, batch: Seq<FileEntryView>) -> Seq<FileEntryView>
    decreases batch.len(),
{
    if batch.len() == 0 {
        v
    } else {
        upsert(upsert_all(v, batch.drop_last()), batch.last())
    }
}

/// Whether an entry is keyed `key`.
pub open spec fn has_key(v: Seq<FileEntryView>, key: Seq<char>) -> bool {
    exists|i: int| 0 <= i < v.len() && v[i].path == key
}

/// The entries without the one keyed `key`.
pub open spec fn without_key(v: Seq<FileEntryView>, key: Seq<char>) -> Seq<FileEntryView> {
    v.filter(|e: FileEntryView| e.path != key)
}

impl FileIndex {
    pub closed spec fn entries(&self) -> Seq<FileEntryView> {
        entries_view(self.entries@)
    }

    pub closed spec fn current_generation(&self) -> usize {
        self.generation
    }

    pub closed spec fn initial_scan_due(&self) -> bool {
        self.needs_initial
    }

    pub open spec fn wf(&self) -> bool {
        keys_distinct(self.entries())
    }

    /// The modification times recorded per root at their last scans.
    pub closed spec fn scan_times(&self) -> Seq<(Seq<char>, u64)> {
        self.last_scan@.map_values(|p: (String, u64)| (p.0@, p.1))
    }

    /// Compares `root`'s modification time with the one recorded at its last scan.
    /// When it is newer, or none is recorded, records it and returns true.
    pub fn note_root_time(&mut self, root: &str, mtime: u64) -> (r: bool)
        ensures
            r == root_changed(recorded_time(old(self).scan_times(), root@), mtime),
            r ==> recorded_time(final(self).scan_times(), root@) == Some(mtime),
            !r ==> final(self).scan_times() == old(self).scan_times(),
            final(self).entries() == old(self).entries(),
            final(self).current_generation() == old(self).current_generation(),
            final(self).initial_scan_due() == old(self).initial_scan_due(),
    {
        let ghost v = self.scan_times();
        let mut i: usize = 0;
        assert(v.subrange(0, v.len() as int) =~= v);
        while i < self.last_scan.len()
            invariant
                v == self.scan_times(),
                self.last_scan@ == old(self).last_scan@,
                self.entries == old(self).entries,
                self.generation == old(self).generation,
                self.needs_initial == old(self).needs_initial,
                i <= v.len(),
                forall|j: int| 0 <= j < i ==> v[j].0 != root@,
                recorded_time(v, root@) == recorded_time(v.subrange(i as int, v.len() as int), root@),
            decreases v.len() - i,
        {
            let ghost rest = v.subrange(i as int, v.len() as int);
            assert(rest[0] == v[i as int]);
            assert(v[i as int] == (self.last_scan@[i as int].0@, self.last_scan@[i as int].1));
            if str_eq(self.last_scan[i].0.as_str(), root) {
                let t = self.last_scan[i].1;
                if mtime > t {
                    let name = self.last_scan[i].0.clone();
                    self.last_scan.set(i, (name, mtime));
                    proof {
                        let w = self.scan_times();
                        assert(w =~= v.update(i as int, (root@, mtime)));
                        lemma_recorded_first(w, root@, i as int);
                    }
                    return true;
                }
                return false;
            }
            assert(rest.drop_first() =~= v.subrange(i + 1, v.len() as int));
            i = i + 1;
        }
        self.last_scan.push((String::from_str(root), mtime));
        proof {
            let w = self.scan_times();
            assert(w =~= v.push((root@, mtime)));
            lemma_recorded_push(v, root@, mtime);
        }
        true
    }

    fn position(&self, key: &str) -> (r: Option<usize>)
        requires
            self.wf(),
        ensures
            r matches Some(p) ==> p < self.entries().len() && self.entries()[p as int].path == key@,
            r is None ==> forall|i: int| 0 <= i < self.entries().len() ==> self.entries()[i].path != key@,
    {
        let mut i: usize = 0;
        while i < self.entries.len()
            invariant
                i <= self.entries@.len(),
                forall|j: int| 0 <= j < i ==> self.entries()[j].path != key@,
            decreases self.entries@.len() - i,
        {
            assert(self.entries()[i as int] == self.entries@[i as int]@);
            if str_eq(self.entries[i].path.as_str(), key) {
                return Some(i);
            }
            i = i + 1;
        }
        None
    }

    /// Inserts `entry` under its key without touching the generation.
    pub fn insert(&mut self, entry: FileEntry)
        requires
            old(self).wf(),
        ensures
            final(self).wf(),
            final(self).entries() == upsert(old(self).entries(), entry@),
            final(self).current_generation() == old(self).current_generation(),
            final(self).initial_scan_due() == old(self).initial_scan_due(),
    {
        let ghost v = self.entries();
        let ghost ev = entry@;
        match self.position(entry.path.as_str()) {
            Some(p) => {
                proof {
                    assert(exists|i: int| 0 <= i < v.len() && v[i].path == ev.path);
                    let c = choose|i: int| 0 <= i < v.len() && v[i].path == ev.path;
                    assert(c == p);
                }
                self.entries.set(p, entry);
                assert(self.entries() =~= v.update(p as int, ev));
            },
            None => {
                self.entries.push(entry);
                assert(self.entries() =~= v.push(ev));
            },
        }
    }

    /// A fresh index seeded with `loaded` (a later entry wins over an earlier one with
    /// the same key); a first scan is due.
    pub fn new(loaded: Vec<FileEntry>) -> (r: Self)
        ensures
            r.wf(),
            r.entries() == upsert_all(Seq::empty(), entries_view(loaded@)),
            r.current_generation() == 0,
            r.initial_scan_due(),
    {
        let mut index = FileIndex { entries: Vec::new(), generation: 0, needs_initial: true, last_scan: Vec::new() };
        assert(index.entries() =~= Seq::<FileEntryView>::empty());
        let ghost lv = entries_view(loaded@);
        let mut i: usize = 0;
        while i < loaded.len()
            invariant
                lv == entries_view(loaded@),
                index.wf(),
                index.entries() == upsert_all(Seq::empty(), lv.subrange(0, i as int)),
                index.current_generation() == 0,
                index.initial_scan_due(),
                i <= loaded@.len(),
            decreases loaded@.len() - i,
        {
            assert(lv.subrange(0, i + 1).drop_last() =~= lv.subrange(0, i as int));
            index.insert(loaded[i].duplicate());
            i = i + 1;
        }
        assert(lv.subrange(0, lv.len() as int) =~= lv);
        index
    }

    /// Inserts a batch of scanned entries and empties the batch.
    pub fn flush_batch(&mut self, batch: &mut Vec<FileEntry>)
        requires
            old(self).wf(),
        ensures
            final(self).wf(),
            final(self).entries() == upsert_all(old(self).entries(), entries_view(old(batch)@)),
            final(batch)@.len() == 0,
            final(self).current_generation() == old(self).current_generation(),
            final(self).initial_scan_due() == old(self).initial_scan_due(),
    {
        let ghost bv = entries_view(batch@);
        let mut i: usize = 0;
        assert(old(self).entries() == upsert_all(old(self).entries(), bv.subrange(0, 0)));
        while i < batch.len()
            invariant
                bv == entries_view(batch@),
                batch@ == old(batch)@,
                self.wf(),
                self.entries() == upsert_all(old(self).entries(), bv.subrange(0, i as int)),
                self.current_generation() == old(self).current_generation(),
                self.initial_scan_due() == old(self).initial_scan_due(),
                i <= batch@.len(),
            decreases batch@.len() - i,
        {
            assert(bv.subrange(0, i + 1).drop_last() =~= bv.subrange(0, i as int));
            self.insert(batch[i].duplicate());
            i = i + 1;
        }
        assert(bv.subrange(0, bv.len() as int) =~= bv);
        batch.clear();
    }

    /// Records the end of a scan: the generation advances.
    pub fn scan_finished(&mut self)
        ensures
            final(self).entries() == old(self).entries(),
            final(self).current_generation() == next_generation(old(self).current_generation()),
            final(self).initial_scan_due() == old(self).initial_scan_due(),
    {
        self.bump();
    }

    fn bump(&mut self)
        ensures
            final(self).entries == old(self).entries,
            final(self).generation == next_generation(old(self).generation),
            final(self).needs_initial == old(self).needs_initial,
    {
        if self.generation == usize::MAX {
            self.generation = 0;
        } else {
            self.generation = self.generation + 1;
        }
    }

    /// Drops the entry for `path`; the generation advances if there was one.
    pub fn remove_path(&mut self, path: &str) -> (r: bool)
        requires
            old(self).wf(),
        ensures
            final(self).wf(),
            final(self).entries() == without_key(old(self).entries(), path@),
            r == (final(self).entries().len() != old(self).entries().len()),
            r == has_key(old(self).entries(), path@),
            final(self).current_generation() == if r {
                next_generation(old(self).current_generation())
            } else {
                old(self).current_generation()
            },
            final(self).initial_scan_due() == old(self).initial_scan_due(),
    {
        let ghost v = self.entries();
        proof {
            lemma_filter_shrinks(v, |e: FileEntryView| e.path != path@);
        }
        let ghost pred = |e: FileEntryView| e.path != path@;
        let mut kept: Vec<FileEntry> = Vec::new();
        let mut i: usize = 0;
        while i < self.entries.len()
            invariant
                v == self.entries(),
                keys_distinct(v),
                pred == (|e: FileEntryView| e.path != path@),
                i <= v.len(),
                entries_view(kept@) == v.subrange(0, i as int).filter(pred),
            decreases v.len() - i,
        {
            proof {
                reveal(Seq::filter);
                assert(v.subrange(0, i + 1).drop_last() =~= v.subrange(0, i as int));
                assert(v.subrange(0, i + 1).last() == self.entries@[i as int]@);
            }
            let ghost before = entries_view(kept@);
            if !str_eq(self.entries[i].path.as_str(), path) {
                kept.push(self.entries[i].duplicate());
                assert(entries_view(kept@) =~= before.push(self.entries@[i as int]@));
            }
            assert(entries_view(kept@) =~= v.subrange(0, i + 1).filter(pred));
            i = i + 1;
        }
        assert(v.subrange(0, v.len() as int) =~= v);
        proof {
            v.lemma_filter_len(pred);
            assert forall|a: int, b: int| 0 <= a < b < entries_view(kept@).len() implies entries_view(kept@)[a].path
                != entries_view(kept@)[b].path by {
                lemma_filter_distinct(v, pred, a, b);
            }
        }
        let changed = kept.len() != self.entries.len();
        self.entries = kept;
        if changed {
            self.bump();
        }
        changed
    }

    /// Applies a watcher event for `path`. `exists` and `is_file` describe the path as
    /// it is now. A removal drops the entry; a creation or change of a path that is gone
    /// drops it too; of a file with an accepted extension, it upserts the entry. The
    /// generation advances whenever the index changed. Returns whether it did.
    pub fn handle_event(
        &mut self,
        kind: FileEventKind,
        path: &str,
        exists: bool,
        is_file: bool,
        config: &FileIndexerConfig,
    ) -> (r: bool)
        requires
            old(self).wf(),
        ensures
            final(self).wf(),
            final(self).initial_scan_due() == old(self).initial_scan_due(),
            final(self).entries() == match kind {
                FileEventKind::Remove => without_key(old(self).entries(), path@),
                FileEventKind::CreateOrModify => if !exists {
                    without_key(old(self).entries(), path@)
                } else if is_file && extension_accepted(path@, strings_view(config.extensions@))
                    && file_name(path@) is Some {
                    upsert(old(self).entries(), FileEntryView { path: path@, name: file_name(path@)->0 })
                } else {
                    old(self).entries()
                },
                FileEventKind::Other => old(self).entries(),
            },
            final(self).current_generation() == if r {
                next_generation(old(self).current_generation())
            } else {
                old(self).current_generation()
            },
            r == match kind {
                FileEventKind::Remove => has_key(old(self).entries(), path@),
                FileEventKind::CreateOrModify => if !exists {
                    has_key(old(self).entries(), path@)
                } else {
                    is_file && extension_accepted(path@, strings_view(config.extensions@))
                        && file_name(path@) is Some
                },
                FileEventKind::Other => false,
            },
    {
        match kind {
            FileEventKind::Remove => self.remove_path(path),
            FileEventKind::CreateOrModify => {
                if !exists {
                    return self.remove_path(path);
                }
                if !is_file || !accepts_extension(path, &config.extensions) {
                    return false;
                }
                match FileEntry::from_path(path) {
                    Some(entry) => {
                        self.insert(entry);
                        self.bump();
                        true
                    },
                    None => false,
                }
            },
            FileEventKind::Other => false,
        }
    }

    /// Whether a first scan is still due; clears the flag.
    pub fn take_initial_scan(&mut self) -> (r: bool)
        ensures
            r == old(self).initial_scan_due(),
            !final(self).initial_scan_due(),
            final(self).entries() == old(self).entries(),
            final(self).current_generation() == old(self).current_generation(),
    {
        let r = self.needs_initial;
        self.needs_initial = false;
        r
    }

    /// Asks for a first scan again.
    pub fn request_initial_scan(&mut self)
        ensures
            final(self).initial_scan_due(),
            final(self).entries() == old(self).entries(),
            final(self).current_generation() == old(self).current_generation(),
    {
        self.needs_initial = true;
    }

    /// Copies of all entries.
    pub fn get_all_files(&self) -> (r: Vec<FileEntry>)
        ensures
            entries_view(r@) == self.entries(),
    {
        let mut r: Vec<FileEntry> = Vec::new();
        let mut i: usize = 0;
        while i < self.entries.len()
            invariant
                i <= self.entries@.len(),
                r@.len() == i,
                forall|j: int| 0 <= j < i ==> r@[j]@ == self.entries@[j]@,
            decreases self.entries@.len() - i,
        {
            r.push(self.entries[i].duplicate());
            i = i + 1;
        }
        assert(entries_view(r@) =~= self.entries());
        r
    }

    /// Whether a scan stops before reading a directory at `depth`: the depth limit is
    /// reached, or the index already holds the maximum number of files.
    pub fn scan_should_stop(&self, depth: usize, config: &FileIndexerConfig) -> (r: bool)
        ensures
            r == (depth >= config.max_depth || self.entries().len() >= config.max_files),
    {
        depth >= config.max_depth || self.entries.len() >= config.max_files
    }

    /// The number of entries.
    pub fn file_count(&self) -> (r: usize)
        ensures
            r == self.entries().len(),
    {
        self.entries.len()
    }

    /// A rough size of the index in memory: 150 bytes per entry, saturating.
    pub fn estimated_memory_bytes(&self) -> (r: usize)
        ensures
            r == if self.entries().len() * 150 <= usize::MAX {
                (self.entries().len() * 150) as usize
            } else {
                usize::MAX
            },
    {
        let count = self.entries.len();
        if count <= usize::MAX / 150 {
            count * 150
        } else {
            usize::MAX
        }
    }

    /// The change generation.
    pub fn generation(&self) -> (r: usize)
        ensures
            r == self.current_generation(),
    {
        self.generation
    }
}

/// A depth-first walk of one root in progress: the directories still to read, with
/// their depths, and the accepted files not yet inserted into the index.
pub struct ScanWalk {
    stack: Vec<(String, usize)>,
    batch: Vec<FileEntry>,
}

impl ScanWalk {
    /// The directories still to read, last pushed last.
    pub closed spec fn pending(&self) -> Seq<(Seq<char>, usize)> {
        self.stack@.map_values(|p: (String, usize)| (p.0@, p.1))
    }

    /// The accepted files not yet inserted.
    pub closed spec fn batched(&self) -> Seq<FileEntryView> {
        entries_view(self.batch@)
    }

    /// A walk that starts at `root`, at depth 0.
    pub fn new(root: &str) -> (r: Self)
        ensures
            r.pending() == seq![(root@, 0usize)],
            r.batched() == Seq::<FileEntryView>::empty(),
    {
        let mut stack: Vec<(String, usize)> = Vec::new();
        stack.push((String::from_str(root), 0));
        let r = ScanWalk { stack, batch: Vec::new() };
        assert(r.pending() =~= seq![(root@, 0usize)]);
        assert(r.batched() =~= Seq::<FileEntryView>::empty());
        r
    }

    /// The next directory to read. The walk ends (and forgets what is pending) when
    /// nothing is pending, or when the directory on top is at the depth limit or the
    /// index is full.
    pub fn next_dir(&mut self, index: &FileIndex, config: &FileIndexerConfig) -> (r: Option<(String, usize)>)
        ensures
            final(self).batched() == old(self).batched(),
            old(self).pending().len() == 0 ==> r is None && final(self).pending() == old(self).pending(),
            old(self).pending().len() > 0 ==> {
                let top = old(self).pending().last();
                if top.1 >= config.max_depth || index.entries().len() >= config.max_files {
                    r is None && final(self).pending().len() == 0
                } else {
                    r matches Some(d) && d.0@ == top.0 && d.1 == top.1 && final(self).pending()
                        == old(self).pending().drop_last()
                }
            },
    {
        let ghost p = self.pending();
        match self.stack.pop() {
            None => None,
            Some((dir, depth)) => {
                assert(p.last() == (dir@, depth));
                if index.scan_should_stop(depth, config) {
                    self.stack.clear();
                    assert(self.pending() =~= Seq::<(Seq<char>, usize)>::empty());
                    None
                } else {
                    assert(self.pending() =~= p.drop_last());
                    Some((dir, depth))
                }
            },
        }
    }

    /// Looks at one entry of a directory read at `depth`. A skipped name is passed over;
    /// a directory is pushed one level deeper; a file with an accepted extension and a
    /// final component is batched. Returns whether the batch is full and should be
    /// flushed.
    pub fn visit(
        &mut self,
        path: &str,
        name: &str,
        is_dir: bool,
        is_file: bool,
        depth: usize,
        config: &FileIndexerConfig,
    ) -> (r: bool)
        requires
            depth < usize::MAX,
        ensures
            skipped(name@, config.index_hidden, strings_view(config.exclude_dirs@)) ==> final(self).pending()
                == old(self).pending() && final(self).batched() == old(self).batched(),
            !skipped(name@, config.index_hidden, strings_view(config.exclude_dirs@)) && is_dir
                ==> final(self).pending() == old(self).pending().push((path@, (depth + 1) as usize))
                && final(self).batched() == old(self).batched(),
            !skipped(name@, config.index_hidden, strings_view(config.exclude_dirs@)) && !is_dir
                ==> final(self).pending() == old(self).pending() && final(self).batched() == if is_file
                && extension_accepted(path@, strings_view(config.extensions@)) && file_name(path@) is Some {
                old(self).batched().push(FileEntryView { path: path@, name: file_name(path@)->0 })
            } else {
                old(self).batched()
            },
            r == (final(self).batched().len() >= BATCH_SIZE),
    {
        if should_skip(name, config) {
            return self.batch.len() >= BATCH_SIZE;
        }
        if is_dir {
            let ghost p = self.pending();
            self.stack.push((String::from_str(path), depth + 1));
            assert(self.pending() =~= p.push((path@, (depth + 1) as usize)));
        } else if is_file && accepts_extension(path, &config.extensions) {
            if let Some(e) = FileEntry::from_path(path) {
                let ghost b = self.batched();
                let ghost ev = e@;
                self.batch.push(e);
                assert(self.batched() =~= b.push(ev));
            }
        }
        self.batch.len() >= BATCH_SIZE
    }

    /// Inserts the batched files into `index` and empties the batch.
    pub fn flush_into(&mut self, index: &mut FileIndex)
        requires
            old(index).wf(),
        ensures
            final(index).wf(),
            final(index).entries() == upsert_all(old(index).entries(), old(self).batched()),
            final(index).current_generation() == old(index).current_generation(),
            final(index).initial_scan_due() == old(index).initial_scan_due(),
            final(self).batched().len() == 0,
            final(self).pending() == old(self).pending(),
    {
        index.flush_batch(&mut self.batch);
    }
}

proof fn lemma_recorded_first(w: Seq<(Seq<char>, u64)>, root: Seq<char>, i: int)
    requires
        0 <= i < w.len(),
        w[i].0 == root,
        forall|j: int| 0 <= j < i ==> w[j].0 != root,
    ensures
        recorded_time(w, root) == Some(w[i].1),
    decreases i,
{
    if i > 0 {
        assert forall|j: int| 0 <= j < i - 1 implies w.drop_first()[j].0 != root by {
            assert(w.drop_first()[j] == w[j + 1]);
        }
        lemma_recorded_first(w.drop_first(), root, i - 1);
    }
}

proof fn lemma_recorded_push(v: Seq<(Seq<char>, u64)>, root: Seq<char>, t: u64)
    requires
        forall|j: int| 0 <= j < v.len() ==> v[j].0 != root,
    ensures
        recorded_time(v.push((root, t)), root) == Some(t),
{
    lemma_recorded_first(v.push((root, t)), root, v.len() as int);
}

proof fn lemma_filter_shrinks(v: Seq<FileEntryView>, pred: spec_fn(FileEntryView) -> bool)
    ensures
        (v.filter(pred).len() != v.len()) == (exists|i: int| 0 <= i < v.len() && !pred(v[i])),
    decreases v.len(),
{
    reveal(Seq::filter);
    if v.len() > 0 {
        let d = v.drop_last();
        lemma_filter_shrinks(d, pred);
        d.lemma_filter_len(pred);
        if exists|i: int| 0 <= i < d.len() && !pred(d[i]) {
            let i = choose|i: int| 0 <= i < d.len() && !pred(d[i]);
            assert(v[i] == d[i]);
        }
        if exists|i: int| 0 <= i < v.len() && !pred(v[i]) {
            let i = choose|i: int| 0 <= i < v.len() && !pred(v[i]);
            if i < v.len() - 1 {
                assert(d[i] == v[i]);
            }
        }
    }
}

proof fn lemma_filter_distinct(v: Seq<FileEntryView>, pred: spec_fn(FileEntryView) -> bool, a: int, b: int)
    requires
        keys_distinct(v),
        0 <= a < b < v.filter(pred).len(),
    ensures
        v.filter(pred)[a].path != v.filter(pred)[b].path,
    decreases v.len(),
{
    reveal(Seq::filter);
    let f = v.filter(pred);
    let d = v.drop_last();
    assert(keys_distinct(d)) by {
        assert forall|i: int, j: int| 0 <= i < j < d.len() implies d[i].path != d[j].path by {
            assert(d[i] == v[i] && d[j] == v[j]);
        }
    }
    if pred(v.last()) {
        d.lemma_filter_len(pred);
        if b < f.len() - 1 {
            lemma_filter_distinct(d, pred, a, b);
        } else {
            d.lemma_filter_contains_rev(pred, f[a]);
            let t = choose|t: int| 0 <= t < d.len() && d[t] == f[a];
            assert(v[t] == f[a]);
            assert(f[b] == v.last());
        }
    } else {
        lemma_filter_distinct(d, pred, a, b);
    }
}

} // verus!

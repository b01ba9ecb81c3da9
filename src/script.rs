//! Script filters: where the script lives, the result cache with its time-to-live,
//! and the rows built from a script's items. Running the process is the caller's part.
use vstd::prelude::*;
use vstd::string::*;

use std::collections::hash_map::RandomState;
use std::hash::{Hash, Hasher};
use std::num::NonZeroUsize;

use lru::LruCache;
use rustc_hash::FxHasher;

use crate::action::{opt_view, results_view, ActionResult, ActionResultView, ResultAction, ResultActionView};
use crate::text::{starts_with, str_starts_with, substring};

verus! {

/// How long a cached script result stays fresh, in milliseconds.
pub const CACHE_TTL_MS: u64 = 2000;

/// How long a script may run, in milliseconds.
pub const SCRIPT_TIMEOUT_MS: u64 = 2000;

/// How many script results the cache holds.
pub const CACHE_SIZE: usize = 100;

/// The icon of a script item.
#[derive(Debug, Clone, PartialEq, Eq)]
pub struct ScriptIcon {
    pub path: String,
    pub icon_type: Option<String>,
}

/// One item of a script's output.
#[derive(Debug, Clone, PartialEq, Eq)]
pub struct ScriptItem {
    pub title: String,
    pub subtitle: Option<String>,
    pub arg: Option<String>,
    pub icon: Option<ScriptIcon>,
    pub valid: bool,
    pub autocomplete: Option<String>,
    pub quicklook: Option<String>,
    pub uid: Option<String>,
}

pub ghost struct ScriptItemView {
    pub title: Seq<char>,
    pub subtitle: Option<Seq<char>>,
    pub arg: Option<Seq<char>>,
    pub icon_path: Option<Seq<char>>,
    pub valid: bool,
    pub quicklook: Option<Seq<char>>,
    pub uid: Option<Seq<char>>,
}

impl View for ScriptItem {
    type V = ScriptItemView;

    open spec fn view(&self) -> ScriptItemView {
        ScriptItemView {
            title: self.title@,
            subtitle: opt_view(self.subtitle),
            arg: opt_view(self.arg),
            icon_path: match self.icon {
                Some(i) => Some(i.path@),
                None => None,
            },
            valid: self.valid,
            quicklook: opt_view(self.quicklook),
            uid: opt_view(self.uid),
        }
    }
}

pub open spec fn script_items_view(v: Seq<ScriptItem>) -> Seq<ScriptItemView> {
    v.map_values(|i: ScriptItem| i@)
}

/// An item is valid unless it says otherwise.
pub fn default_true() -> (r: bool)
    ensures
        r,
{
    true
}

/// `p` occurs somewhere in `s`.
pub open spec fn contains_seq(s: Seq<char>, p: Seq<char>) -> bool {
    exists|i: int| 0 <= i <= s.len() && starts_with(#[trigger] s.subrange(i, s.len() as int), p)
}

/// `p` joined under directory `dir`, as a path join does for a relative `p`.
pub open spec fn join_path(dir: Seq<char>, p: Seq<char>) -> Seq<char> {
    if dir.len() == 0 {
        p
    } else if dir.last() == '/' {
        dir + p
    } else {
        dir + "/"@ + p
    }
}

/// An absolute path stays; a relative one is taken under `dir`.
pub open spec fn resolve_under(p: Seq<char>, dir: Seq<char>) -> Seq<char> {
    if p.len() > 0 && p[0] == '/' {
        p
    } else {
        join_path(dir, p)
    }
}

/// Where a script (or an icon) named `path` lives for an extension in `extension_dir`.
pub fn resolve_script_path(path: &str, extension_dir: &str) -> (r: String)
    ensures
        r@ == resolve_under(path@, extension_dir@),
{
    let n = path.unicode_len();
    if n > 0 && path.get_char(0) == '/' {
        return String::from_str(path);
    }
    let m = extension_dir.unicode_len();
    if m == 0 {
        return String::from_str(path);
    }
    if extension_dir.get_char(m - 1) == '/' {
        String::from_str(extension_dir).concat(path)
    } else {
        proof {
            reveal_strlit("/");
        }
        String::from_str(extension_dir).concat("/").concat(path)
    }
}

fn contains_str(s: &str, p: &str) -> (r: bool)
    ensures
        r == contains_seq(s@, p@),
{
    let n = s.unicode_len();
    let mut i: usize = 0;
    while i < n
        invariant
            n == s@.len(),
            i <= n,
            forall|j: int| 0 <= j < i ==> !starts_with(#[trigger] s@.subrange(j, n as int), p@),
        decreases n - i,
    {
        let rest = substring(s, i, n);
        if str_starts_with(rest.as_str(), p) {
            return true;
        }
        i = i + 1;
    }
    let rest = substring(s, n, n);
    str_starts_with(rest.as_str(), p)
}

/// What choosing a script row does, from its `arg`: a URL opens; `cmd:` runs the rest
/// in a shell; an absolute or home-relative path opens as a file URL; anything else
/// opens as given. Without an arg, the title is copied.
pub open spec fn arg_action(arg: Option<Seq<char>>, title: Seq<char>) -> ResultActionView {
    match arg {
        Some(a) => if starts_with(a, "http://"@) || starts_with(a, "https://"@) || contains_seq(a, "://"@) {
            ResultActionView::OpenUrl(a)
        } else if starts_with(a, "cmd:"@) {
            ResultActionView::RunCommand {
                cmd: "/bin/sh"@,
                args: seq!["-c"@, a.subrange(4, a.len() as int)],
            }
        } else if starts_with(a, "/"@) || starts_with(a, "~/"@) {
            ResultActionView::OpenUrl("file://"@ + a)
        } else {
            ResultActionView::OpenUrl(a)
        },
        None => ResultActionView::CopyText(title),
    }
}

/// The action of a script row.
pub fn script_arg_action(arg: &Option<String>, title: &String) -> (r: ResultAction)
    ensures
        r@ == arg_action(opt_view(*arg), title@),
{
    match arg {
        None => ResultAction::CopyText(title.clone()),
        Some(a) => {
            let s = a.as_str();
            if str_starts_with(s, "http://") || str_starts_with(s, "https://") || contains_str(s, "://") {
                ResultAction::OpenUrl(a.clone())
            } else if str_starts_with(s, "cmd:") {
                proof {
                    reveal_strlit("cmd:");
                }
                let n = s.unicode_len();
                let rest = substring(s, 4, n);
                let mut args: Vec<String> = Vec::new();
                args.push(String::from_str("-c"));
                args.push(rest);
                let ghost av = args@;
                assert(crate::text::strings_view(av) =~= seq!["-c"@, s@.subrange(4, n as int)]);
                ResultAction::RunCommand { cmd: String::from_str("/bin/sh"), args }
            } else if str_starts_with(s, "/") || str_starts_with(s, "~/") {
                ResultAction::OpenUrl(String::from_str("file://").concat(s))
            } else {
                ResultAction::OpenUrl(a.clone())
            }
        },
    }
}

/// The decimal digits of `n`.
pub open spec fn decimal(n: nat) -> Seq<char>
    decreases n,
{
    if n < 10 {
        seq![digit_char(n)]
    } else {
        decimal(n / 10) + seq![digit_char(n % 10)]
    }
}

pub open spec fn digit_char(d: nat) -> char {
    if d == 0 { '0' } else if d == 1 { '1' } else if d == 2 { '2' } else if d == 3 { '3' } else if d
        == 4 { '4' } else if d == 5 { '5' } else if d == 6 { '6' } else if d == 7 { '7' } else if d
        == 8 { '8' } else { '9' }
}

fn digit_str(d: usize) -> (r: &'static str)
    requires
        d < 10,
    ensures
        r@ == seq![digit_char(d as nat)],
{
    proof {
        reveal_strlit("0");
        reveal_strlit("1");
        reveal_strlit("2");
        reveal_strlit("3");
        reveal_strlit("4");
        reveal_strlit("5");
        reveal_strlit("6");
        reveal_strlit("7");
        reveal_strlit("8");
        reveal_strlit("9");
    }
    if d == 0 {
        "0"
    } else if d == 1 {
        "1"
    } else if d == 2 {
        "2"
    } else if d == 3 {
        "3"
    } else if d == 4 {
        "4"
    } else if d == 5 {
        "5"
    } else if d == 6 {
        "6"
    } else if d == 7 {
        "7"
    } else if d == 8 {
        "8"
    } else {
        "9"
    }
}

/// `n` in decimal.
pub fn to_decimal(n: usize) -> (r: String)
    ensures
        r@ == decimal(n as nat),
    decreases n,
{
    if n < 10 {
        String::from_str(digit_str(n))
    } else {
        let head = to_decimal(n / 10);
        head.concat(digit_str(n % 10))
    }
}

/// The row built from item number `i` of a script's output.
pub open spec fn script_row(
    item: ScriptItemView,
    i: nat,
    action_id: Seq<char>,
    dir: Seq<char>,
    icon_exists: bool,
) -> ActionResultView {
    ActionResultView {
        id: match item.uid {
            Some(u) => u,
            None => action_id + "-"@ + decimal(i),
        },
        title: item.title,
        subtitle: match item.subtitle {
            Some(s) => s,
            None => Seq::empty(),
        },
        icon: "doc.text"@,
        icon_path: match item.icon_path {
            Some(p) => if icon_exists {
                Some(resolve_under(p, dir))
            } else {
                None
            },
            None => None,
        },
        score: 200,
        action: arg_action(item.arg, item.title),
        quicklook: item.quicklook,
    }
}

/// The rows of a script's output: one per valid item, in order.
pub open spec fn script_rows(
    items: Seq<ScriptItemView>,
    action_id: Seq<char>,
    dir: Seq<char>,
    icon_exists: Seq<bool>,
) -> Seq<ActionResultView>
    decreases items.len(),
{
    if items.len() == 0 {
        Seq::empty()
    } else {
        let before = script_rows(items.drop_last(), action_id, dir, icon_exists);
        let i = (items.len() - 1) as nat;
        if items.last().valid {
            before.push(script_row(items.last(), i, action_id, dir, icon_exists[i as int]))
        } else {
            before
        }
    }
}

fn copy_opt(o: &Option<String>) -> (r: Option<String>)
    ensures
        opt_view(r) == opt_view(*o),
{
    match o {
        Some(s) => Some(s.clone()),
        None => None,
    }
}

/// Builds the rows of a script's output. `icon_exists[i]` tells whether the icon file
/// of item `i`, resolved with `resolve_script_path`, exists.
pub fn create_script_results(
    items: &Vec<ScriptItem>,
    action_id: &str,
    extension_dir: &str,
    icon_exists: &Vec<bool>,
) -> (r: Vec<ActionResult>)
    requires
        icon_exists@.len() == items@.len(),
    ensures
        results_view(r@) == script_rows(script_items_view(items@), action_id@, extension_dir@, icon_exists@),
{
    let ghost iv = script_items_view(items@);
    let mut out: Vec<ActionResult> = Vec::new();
    let mut i: usize = 0;
    while i < items.len()
        invariant
            iv == script_items_view(items@),
            icon_exists@.len() == items@.len(),
            i <= items@.len(),
            results_view(out@) == script_rows(iv.subrange(0, i as int), action_id@, extension_dir@, icon_exists@),
        decreases items@.len() - i,
    {
        let item = &items[i];
        proof {
            assert(iv.subrange(0, i + 1).drop_last() =~= iv.subrange(0, i as int));
            assert(iv.subrange(0, i + 1).last() == item@);
        }
        if item.valid {
            let id = match &item.uid {
                Some(u) => u.clone(),
                None => String::from_str(action_id).concat("-").concat(to_decimal(i).as_str()),
            };
            let subtitle = match &item.subtitle {
                Some(s) => s.clone(),
                None => String::new(),
            };
            let icon_path = match &item.icon {
                Some(icon) => if icon_exists[i] {
                    Some(resolve_script_path(icon.path.as_str(), extension_dir))
                } else {
                    None
                },
                None => None,
            };
            let row = ActionResult {
                id,
                title: item.title.clone(),
                subtitle,
                icon: String::from_str("doc.text"),
                icon_path,
                score: 200,
                action: script_arg_action(&item.arg, &item.title),
                quicklook: copy_opt(&item.quicklook),
            };
            let ghost prev = results_view(out@);
            out.push(row);
            assert(results_view(out@) =~= prev.push(row@));
        }
        i = i + 1;
    }
    assert(iv.subrange(0, iv.len() as int) =~= iv);
    out
}

/// A cached script result and when it was stored.
#[derive(Debug, Clone, PartialEq, Eq)]
pub struct CacheEntry {
    pub results: Vec<ActionResult>,
    pub timestamp_ms: u64,
}

pub type ScriptLru = LruCache<u64, CacheEntry, RandomState>;

/// The script cache's entries: key to (rows, time stored).
pub uninterp spec fn script_cache_entries(c: ScriptLru) -> Map<u64, (Seq<ActionResultView>, u64)>;

pub open spec fn no_script_entries() -> Map<u64, (Seq<ActionResultView>, u64)> {
    Map::empty()
}

/// Relies on `LruCache::with_hasher`: an empty cache holding at most `cap` entries.
#[verifier::external_body]
fn script_lru_new(cap: usize) -> (r: ScriptLru)
    requires
        cap > 0,
    ensures
        script_cache_entries(r) == no_script_entries(),
{
    LruCache::with_hasher(NonZeroUsize::new(cap).unwrap(), RandomState::new())
}

/// Relies on `LruCache::get`: the entry for `key`, cloned; only recency changes.
#[verifier::external_body]
fn script_lru_get(c: &mut ScriptLru, key: u64) -> (r: Option<CacheEntry>)
    ensures
        script_cache_entries(*final(c)) == script_cache_entries(*old(c)),
        r is Some == script_cache_entries(*old(c)).contains_key(key),
        r matches Some(e) ==> (results_view(e.results@), e.timestamp_ms) == script_cache_entries(*old(c))[key],
{
    c.get(&key).cloned()
}

/// Relies on `LruCache::put`: `key` then holds `value`; another entry may be evicted,
/// and the rest are unchanged.
#[verifier::external_body]
fn script_lru_put(c: &mut ScriptLru, key: u64, value: CacheEntry)
    ensures
        script_cache_entries(*final(c)).contains_key(key),
        script_cache_entries(*final(c))[key] == (results_view(value.results@), value.timestamp_ms),
        forall|k: u64| #[trigger]
            script_cache_entries(*final(c)).contains_key(k) && k != key ==> script_cache_entries(
                *old(c),
            ).contains_key(k) && script_cache_entries(*final(c))[k] == script_cache_entries(*old(c))[k],
{
    c.put(key, value);
}

/// The FxHash of a script path followed by a query: the cache key of a script run.
/// `FxHasher` is not seeded, so the key depends on the two strings alone (for the
/// word size of the target the crate is built for).
pub uninterp spec fn fx_cache_key(script_path: Seq<char>, query: Seq<char>) -> u64;

/// Relies on `rustc_hash::FxHasher` (default, unseeded) fed the script path and then
/// the query through `str`'s `Hash`.
#[verifier::external_body]
pub(crate) fn cache_key(script_path: &str, query: &str) -> (r: u64)
    ensures
        r == fx_cache_key(script_path@, query@),
{
    let mut hasher = FxHasher::default();
    script_path.hash(&mut hasher);
    query.hash(&mut hasher);
    hasher.finish()
}

/// Milliseconds from `stored` to `now`, zero if the clock reads earlier.
pub open spec fn elapsed_ms(stored: u64, now: u64) -> int {
    if now >= stored {
        now - stored
    } else {
        0
    }
}

/// The rows cached under `key` if they are younger than the time-to-live at `now`.
pub open spec fn fresh_entry(m: Map<u64, (Seq<ActionResultView>, u64)>, key: u64, now: u64) -> Option<Seq<ActionResultView>> {
    if m.contains_key(key) && elapsed_ms(m[key].1, now) < CACHE_TTL_MS {
        Some(m[key].0)
    } else {
        None
    }
}

/// Results of script runs, by key, each with the time it was stored.
pub struct ScriptCache {
    lru: ScriptLru,
}

impl ScriptCache {
    pub closed spec fn entries(&self) -> Map<u64, (Seq<ActionResultView>, u64)> {
        script_cache_entries(self.lru)
    }

    pub fn new() -> (r: Self)
        ensures
            r.entries() == no_script_entries(),
    {
        ScriptCache { lru: script_lru_new(CACHE_SIZE) }
    }

    /// The rows cached under `key`, if still fresh at `now_ms`.
    pub fn check_cache(&mut self, key: u64, now_ms: u64) -> (r: Option<Vec<ActionResult>>)
        ensures
            final(self).entries() == old(self).entries(),
            match fresh_entry(old(self).entries(), key, now_ms) {
                Some(rows) => r matches Some(v) && results_view(v@) == rows,
                None => r is None,
            },
    {
        match script_lru_get(&mut self.lru, key) {
            Some(entry) => {
                let elapsed = if now_ms >= entry.timestamp_ms {
                    now_ms - entry.timestamp_ms
                } else {
                    0
                };
                if elapsed < CACHE_TTL_MS {
                    Some(entry.results)
                } else {
                    None
                }
            },
            None => None,
        }
    }

    /// The key for a script and query, and the rows cached under it if still fresh.
    pub fn lookup(&mut self, script_path: &str, query: &str, now_ms: u64) -> (r: (Option<Vec<ActionResult>>, u64))
        ensures
            r.1 == fx_cache_key(script_path@, query@),
            final(self).entries() == old(self).entries(),
            match fresh_entry(old(self).entries(), r.1, now_ms) {
                Some(rows) => r.0 matches Some(v) && results_view(v@) == rows,
                None => r.0 is None,
            },
    {
        let key = cache_key(script_path, query);
        (self.check_cache(key, now_ms), key)
    }

    /// Stores `results` under `key` as of `now_ms`.
    pub fn store_cache(&mut self, key: u64, results: Vec<ActionResult>, now_ms: u64)
        ensures
            final(self).entries().contains_key(key),
            final(self).entries()[key] == (results_view(results@), now_ms),
            forall|k: u64| #[trigger]
                final(self).entries().contains_key(k) && k != key ==> old(self).entries().contains_key(k)
                    && final(self).entries()[k] == old(self).entries()[k],
    {
        script_lru_put(&mut self.lru, key, CacheEntry { results, timestamp_ms: now_ms });
    }
}

/// A stored result is served unchanged while younger than the time-to-live, and not
/// at all from then on.
pub proof fn lemma_cache_ttl(
    m: Map<u64, (Seq<ActionResultView>, u64)>,
    key: u64,
    rows: Seq<ActionResultView>,
    t: u64,
    d: u64,
)
    requires
        m.contains_key(key),
        m[key] == (rows, t),
        t + d <= u64::MAX,
    ensures
        d < CACHE_TTL_MS ==> fresh_entry(m, key, (t + d) as u64) == Some(rows),
        d >= CACHE_TTL_MS ==> fresh_entry(m, key, (t + d) as u64) is None,
{
}

/// A script run stored at `t` is served again to the same script and query while
/// younger than the time-to-live, and not from then on: both lookups use the same key.
pub proof fn lemma_same_run_within_ttl(
    m: Map<u64, (Seq<ActionResultView>, u64)>,
    script_path: Seq<char>,
    query: Seq<char>,
    rows: Seq<ActionResultView>,
    t: u64,
    d: u64,
)
    requires
        m.contains_key(fx_cache_key(script_path, query)),
        m[fx_cache_key(script_path, query)] == (rows, t),
        t + d <= u64::MAX,
    ensures
        d < CACHE_TTL_MS ==> fresh_entry(m, fx_cache_key(script_path, query), (t + d) as u64) == Some(rows),
        d >= CACHE_TTL_MS ==> fresh_entry(m, fx_cache_key(script_path, query), (t + d) as u64) is None,
{
    lemma_cache_ttl(m, fx_cache_key(script_path, query), rows, t, d);
}

} // verus!

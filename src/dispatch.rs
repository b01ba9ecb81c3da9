//! The action dispatcher: which actions a query triggers, what each produces, and the
//! mutations of the action set.
//!
//! Searching yields a plan of steps: ready rows, and script runs for the caller to
//! perform. `complete_search` then merges the outcome of each run into the rows.
use vstd::prelude::*;
use vstd::string::*;
use vstd::utf8::{decode_utf8, encode_utf8};

use crate::action::{
    actions_view, opt_view, results_view, Action, ActionKind, ActionKindView, ActionResult,
    ActionResultView, ActionView, ResultAction, ResultActionView,
};
use crate::automaton::KeywordMatcherCache;
use crate::pattern::{create_result, match_pattern, pattern_captures, pattern_result};
use crate::text::{
    replace_all, replace_str, starts_with, str_starts_with, strings_view, substring, trim_owned,
    trimmed, whitespace_tokens,
};

verus! {

/// Bytes that URL encoding leaves as they are.
pub open spec fn url_safe(b: u8) -> bool {
    (48 <= b <= 57) || (65 <= b <= 90) || (97 <= b <= 122) || b == 45 || b == 46 || b == 95
        || b == 126
}

/// The upper-case hexadecimal digit of `d`, as a byte.
pub open spec fn hex_digit(d: int) -> u8 {
    if d < 10 {
        (48 + d) as u8
    } else {
        (55 + d) as u8
    }
}

/// Percent-encoding of a byte string: safe bytes stay, every other byte becomes `%XX`.
pub open spec fn percent_encoded(b: Seq<u8>) -> Seq<u8>
    decreases b.len(),
{
    if b.len() == 0 {
        Seq::empty()
    } else {
        (if url_safe(b[0]) {
            seq![b[0]]
        } else {
            seq![37u8, hex_digit(b[0] as int / 16), hex_digit(b[0] as int % 16)]
        }) + percent_encoded(b.drop_first())
    }
}

/// The percent-encoding of the UTF-8 bytes of `s`.
pub open spec fn url_encoded(s: Seq<char>) -> Seq<char> {
    decode_utf8(percent_encoded(encode_utf8(s)))
}

/// Relies on `urlencoding::encode`: every byte outside `0-9 A-Z a-z - . _ ~` becomes `%`
/// and two upper-case hex digits; the others are kept.
#[verifier::external_body]
fn percent_encode(s: &str) -> (r: String)
    ensures
        r@ == url_encoded(s@),
{
    urlencoding::encode(s).into_owned()
}

/// The tail of a quick-link query: the trimmed query must start with `kw`, followed
/// by nothing, a space or a tab; the tail is what follows, trimmed.
pub open spec fn quick_link_tail(q: Seq<char>, kw: Seq<char>) -> Option<Seq<char>> {
    let t = trimmed(q);
    if starts_with(t, kw) {
        let after = t.subrange(kw.len() as int, t.len() as int);
        if after.len() == 0 || after[0] == ' ' || after[0] == '\t' {
            Some(trimmed(after))
        } else {
            None
        }
    } else {
        None
    }
}

/// The query that follows `keyword`, if `query` invokes it.
pub fn match_quick_link(query: &str, keyword: &str) -> (r: Option<String>)
    ensures
        opt_view(r) == quick_link_tail(query@, keyword@),
{
    let t = trim_owned(query);
    if !str_starts_with(t.as_str(), keyword) {
        return None;
    }
    let n = t.as_str().unicode_len();
    let k = keyword.unicode_len();
    let after = substring(t.as_str(), k, n);
    let m = after.as_str().unicode_len();
    if m == 0 {
        return Some(trim_owned(after.as_str()));
    }
    let c = after.as_str().get_char(0);
    if c == ' ' || c == '\t' {
        Some(trim_owned(after.as_str()))
    } else {
        None
    }
}

/// A script run the dispatcher asks for.
#[derive(Debug, Clone, PartialEq, Eq)]
pub struct ScriptRequest {
    pub action_id: String,
    pub script_path: String,
    pub extension_dir: String,
    pub query: String,
}

/// One step of a search: a finished row, or a script to run.
#[derive(Debug, Clone, PartialEq, Eq)]
pub enum DispatchStep {
    Ready(ActionResult),
    RunScript(ScriptRequest),
}

pub ghost struct ScriptRequestView {
    pub action_id: Seq<char>,
    pub script_path: Seq<char>,
    pub extension_dir: Seq<char>,
    pub query: Seq<char>,
}

pub ghost enum StepView {
    Ready(ActionResultView),
    RunScript(ScriptRequestView),
}

impl View for ScriptRequest {
    type V = ScriptRequestView;

    open spec fn view(&self) -> ScriptRequestView {
        ScriptRequestView {
            action_id: self.action_id@,
            script_path: self.script_path@,
            extension_dir: self.extension_dir@,
            query: self.query@,
        }
    }
}

impl View for DispatchStep {
    type V = StepView;

    open spec fn view(&self) -> StepView {
        match self {
            DispatchStep::Ready(r) => StepView::Ready(r@),
            DispatchStep::RunScript(q) => StepView::RunScript(q@),
        }
    }
}

pub open spec fn steps_view(v: Seq<DispatchStep>) -> Seq<StepView> {
    v.map_values(|s: DispatchStep| s@)
}

/// The row of a quick link whose keyword matched with `tail`.
pub open spec fn quick_link_result(a: ActionView, url: Seq<char>, tail: Seq<char>) -> ActionResultView {
    let expanded = replace_all(url, "{query}"@, url_encoded(tail));
    ActionResultView {
        id: a.id + ":"@ + tail,
        title: a.name + ": "@ + tail,
        subtitle: expanded,
        icon: a.icon,
        icon_path: None,
        score: 100,
        action: ResultActionView::OpenUrl(expanded),
        quicklook: None,
    }
}

/// What one action contributes to a search for `q`: nothing when it is disabled or
/// does not match.
pub open spec fn action_steps(a: ActionView, q: Seq<char>) -> Seq<StepView> {
    if !a.enabled {
        Seq::empty()
    } else {
        match a.kind {
            ActionKindView::QuickLink { keyword, url } => match quick_link_tail(q, keyword) {
                Some(t) => seq![StepView::Ready(quick_link_result(a, url, t))],
                None => Seq::empty(),
            },
            ActionKindView::Pattern { pattern, action } => match pattern_captures(
                whitespace_tokens(pattern),
                whitespace_tokens(q),
            ) {
                Some(c) => seq![StepView::Ready(pattern_result(a.id, pattern, action, c, a.icon))],
                None => Seq::empty(),
            },
            ActionKindView::ScriptFilter { keyword, script_path, extension_dir } => match quick_link_tail(
                q,
                keyword,
            ) {
                Some(t) => seq![
                    StepView::RunScript(
                        ScriptRequestView {
                            action_id: a.id,
                            script_path,
                            extension_dir,
                            query: t,
                        },
                    ),
                ],
                None => Seq::empty(),
            },
        }
    }
}

/// The steps of a search for `q` over `actions`, in the actions' order.
pub open spec fn dispatch(actions: Seq<ActionView>, q: Seq<char>) -> Seq<StepView>
    decreases actions.len(),
{
    if actions.len() == 0 {
        Seq::empty()
    } else {
        dispatch(actions.drop_last(), q) + action_steps(actions.last(), q)
    }
}

fn quick_link_row(a: &Action, url: &String, tail: String) -> (r: ActionResult)
    ensures
        r@ == quick_link_result(a@, url@, tail@),
{
    let encoded = percent_encode(tail.as_str());
    proof {
        reveal_strlit("{query}");
    }
    let expanded = replace_str(url.as_str(), "{query}", encoded.as_str());
    let id = a.id.clone().concat(":").concat(tail.as_str());
    let title = a.name.clone().concat(": ").concat(tail.as_str());
    let subtitle = expanded.clone();
    ActionResult::new(id, title, subtitle, a.icon.clone(), 100, ResultAction::OpenUrl(expanded))
}

/// The steps one action contributes to a search for `query`.
fn steps_for(a: &Action, query: &str) -> (r: Vec<DispatchStep>)
    ensures
        steps_view(r@) == action_steps(a@, query@),
{
    let mut out: Vec<DispatchStep> = Vec::new();
    if !a.enabled {
        assert(steps_view(out@) =~= Seq::<StepView>::empty());
        return out;
    }
    match &a.kind {
        ActionKind::QuickLink { keyword, url } => {
            if let Some(tail) = match_quick_link(query, keyword.as_str()) {
                let row = quick_link_row(a, url, tail);
                out.push(DispatchStep::Ready(row));
            }
        },
        ActionKind::Pattern { pattern, action } => {
            if let Some(captures) = match_pattern(pattern.as_str(), query) {
                let row = create_result(
                    a.id.as_str(),
                    a.name.as_str(),
                    pattern.as_str(),
                    action,
                    &captures,
                    a.icon.as_str(),
                );
                out.push(DispatchStep::Ready(row));
            }
        },
        ActionKind::ScriptFilter { keyword, script_path, extension_dir } => {
            if let Some(tail) = match_quick_link(query, keyword.as_str()) {
                out.push(
                    DispatchStep::RunScript(
                        ScriptRequest {
                            action_id: a.id.clone(),
                            script_path: script_path.clone(),
                            extension_dir: extension_dir.clone(),
                            query: tail,
                        },
                    ),
                );
            }
        },
    }
    assert(steps_view(out@) =~= action_steps(a@, query@));
    out
}

/// The keywords of the enabled quick links and script filters, in order.
pub open spec fn enabled_keywords(actions: Seq<ActionView>) -> Seq<Seq<char>>
    decreases actions.len(),
{
    if actions.len() == 0 {
        Seq::empty()
    } else {
        let before = enabled_keywords(actions.drop_last());
        let a = actions.last();
        if a.enabled {
            match a.kind {
                ActionKindView::QuickLink { keyword, .. } => before.push(keyword),
                ActionKindView::ScriptFilter { keyword, .. } => before.push(keyword),
                ActionKindView::Pattern { .. } => before,
            }
        } else {
            before
        }
    }
}

/// The actions whose flag in `picked` is set, in order.
pub open spec fn select(v: Seq<ActionView>, picked: Seq<bool>) -> Seq<ActionView>
    decreases v.len(),
{
    if v.len() == 0 || picked.len() == 0 {
        Seq::empty()
    } else {
        let before = select(v.drop_last(), picked.drop_last());
        if picked.last() {
            before.push(v.last())
        } else {
            before
        }
    }
}

/// The position of the first action with identifier `id`, or the length when none has it.
pub open spec fn position_of_id(v: Seq<ActionView>, id: Seq<char>) -> int
    decreases v.len(),
{
    if v.len() == 0 {
        0
    } else if v[0].id == id {
        0
    } else {
        1 + position_of_id(v.drop_first(), id)
    }
}

proof fn lemma_position_bounds(v: Seq<ActionView>, id: Seq<char>)
    ensures
        0 <= position_of_id(v, id) <= v.len(),
        position_of_id(v, id) < v.len() ==> v[position_of_id(v, id)].id == id,
        forall|j: int| 0 <= j < position_of_id(v, id) ==> v[j].id != id,
    decreases v.len(),
{
    if v.len() > 0 && v[0].id != id {
        lemma_position_bounds(v.drop_first(), id);
        assert forall|j: int| 0 < j < position_of_id(v, id) implies v[j].id != id by {
            assert(v[j] == v.drop_first()[j - 1]);
        }
    }
}

/// The action set after adding `d` unless an action with its identifier exists.
pub open spec fn add_if_absent(v: Seq<ActionView>, d: ActionView) -> Seq<ActionView> {
    if exists|i: int| 0 <= i < v.len() && v[i].id == d.id {
        v
    } else {
        v.push(d)
    }
}

/// The action set after importing `defaults` one by one.
pub open spec fn import_all(v: Seq<ActionView>, defaults: Seq<ActionView>) -> Seq<ActionView>
    decreases defaults.len(),
{
    if defaults.len() == 0 {
        v
    } else {
        add_if_absent(import_all(v, defaults.drop_last()), defaults.last())
    }
}

pub open spec fn quick_link_view(
    id: Seq<char>,
    name: Seq<char>,
    keyword: Seq<char>,
    url: Seq<char>,
    icon: Seq<char>,
) -> ActionView {
    ActionView {
        id,
        name,
        icon,
        enabled: true,
        kind: ActionKindView::QuickLink { keyword, url },
    }
}

/// The canonical quick links for web search.
pub open spec fn default_quick_links() -> Seq<ActionView> {
    seq![
        quick_link_view("google"@, "Google"@, "g"@, "https://www.google.com/search?q={query}"@, "web:google"@),
        quick_link_view("duckduckgo"@, "DuckDuckGo"@, "ddg"@, "https://duckduckgo.com/?q={query}"@, "web:duckduckgo"@),
        quick_link_view("github"@, "GitHub"@, "gh"@, "https://github.com/search?q={query}"@, "web:github"@),
        quick_link_view("stackoverflow"@, "Stack Overflow"@, "so"@, "https://stackoverflow.com/search?q={query}"@, "web:stackoverflow"@),
        quick_link_view("wikipedia"@, "Wikipedia"@, "wiki"@, "https://en.wikipedia.org/wiki/Special:Search?search={query}"@, "web:wikipedia"@),
        quick_link_view("youtube"@, "YouTube"@, "yt"@, "https://www.youtube.com/results?search_query={query}"@, "web:youtube"@),
    ]
}

fn make_quick_link(id: &str, name: &str, keyword: &str, url: &str, icon: &str) -> (r: Action)
    ensures
        r@ == quick_link_view(id@, name@, keyword@, url@, icon@),
{
    Action::quick_link(
        String::from_str(id),
        String::from_str(name),
        String::from_str(keyword),
        String::from_str(url),
        String::from_str(icon),
    )
}

fn default_quick_link_actions() -> (r: Vec<Action>)
    ensures
        actions_view(r@) == default_quick_links(),
{
    let mut v: Vec<Action> = Vec::new();
    v.push(make_quick_link("google", "Google", "g", "https://www.google.com/search?q={query}", "web:google"));
    v.push(make_quick_link("duckduckgo", "DuckDuckGo", "ddg", "https://duckduckgo.com/?q={query}", "web:duckduckgo"));
    v.push(make_quick_link("github", "GitHub", "gh", "https://github.com/search?q={query}", "web:github"));
    v.push(make_quick_link("stackoverflow", "Stack Overflow", "so", "https://stackoverflow.com/search?q={query}", "web:stackoverflow"));
    v.push(make_quick_link("wikipedia", "Wikipedia", "wiki", "https://en.wikipedia.org/wiki/Special:Search?search={query}", "web:wikipedia"));
    v.push(make_quick_link("youtube", "YouTube", "yt", "https://www.youtube.com/results?search_query={query}", "web:youtube"));
    assert(actions_view(v@) =~= default_quick_links());
    v
}

/// The dispatcher: a live set of actions and the keyword automaton built from it.
pub struct ActionManager {
    actions: Vec<Action>,
    keyword_matcher: KeywordMatcherCache,
}

impl ActionManager {
    /// The actions, in order.
    pub closed spec fn actions(&self) -> Seq<ActionView> {
        actions_view(self.actions@)
    }

    /// The actions themselves, in order.
    pub closed spec fn action_values(&self) -> Seq<Action> {
        self.actions@
    }

    /// Whether the keyword automaton must be rebuilt before it is used.
    pub closed spec fn keywords_stale(&self) -> bool {
        self.keyword_matcher.stale()
    }

    /// The keywords the automaton was last built from, as bytes.
    pub closed spec fn keywords_built(&self) -> Option<Seq<Seq<u8>>> {
        self.keyword_matcher.built_from()
    }

    fn keywords(&self) -> (r: Vec<String>)
        ensures
            strings_view(r@) == enabled_keywords(self.actions()),
    {
        let mut r: Vec<String> = Vec::new();
        let mut i: usize = 0;
        while i < self.actions.len()
            invariant
                i <= self.actions@.len(),
                strings_view(r@) == enabled_keywords(actions_view(self.actions@.subrange(0, i as int))),
            decreases self.actions@.len() - i,
        {
            let a = &self.actions[i];
            let ghost pre = actions_view(self.actions@.subrange(0, i as int));
            let ghost now = actions_view(self.actions@.subrange(0, i + 1));
            assert(now.drop_last() =~= pre);
            assert(now.last() == a@);
            if a.enabled {
                match &a.kind {
                    ActionKind::QuickLink { keyword, .. } => {
                        r.push(keyword.clone());
                    },
                    ActionKind::ScriptFilter { keyword, .. } => {
                        r.push(keyword.clone());
                    },
                    ActionKind::Pattern { .. } => {},
                }
            }
            assert(strings_view(r@) =~= enabled_keywords(now));
            i = i + 1;
        }
        assert(self.actions@.subrange(0, self.actions@.len() as int) =~= self.actions@);
        r
    }

    fn rebuild_keyword_matcher(&mut self)
        ensures
            !final(self).keywords_stale(),
            final(self).actions() == old(self).actions(),
            final(self).keywords_built() matches Some(p) ==> p == crate::automaton::utf8_all(
                enabled_keywords(old(self).actions()),
            ),
    {
        let keywords = self.keywords();
        proof {
            assert(keywords@.map_values(|s: String| s@) =~= strings_view(keywords@));
        }
        self.keyword_matcher.rebuild(keywords);
    }

    /// A dispatcher over `actions`, with its keyword automaton built.
    pub fn new(actions: Vec<Action>) -> (r: Self)
        ensures
            r.actions() == actions_view(actions@),
            !r.keywords_stale(),
    {
        let mut m = ActionManager { actions, keyword_matcher: KeywordMatcherCache::new() };
        m.rebuild_keyword_matcher();
        m
    }

    /// Whether the keyword automaton must be rebuilt before it is used.
    pub fn needs_keyword_rebuild(&self) -> (r: bool)
        ensures
            r == self.keywords_stale(),
    {
        self.keyword_matcher.needs_rebuild()
    }

    /// Appends `action`; the keyword automaton becomes stale.
    pub fn add(&mut self, action: Action)
        ensures
            final(self).actions() == old(self).actions().push(action@),
            final(self).keywords_stale(),
    {
        self.actions.push(action);
        self.keyword_matcher.invalidate();
        assert(actions_view(self.actions@) =~= actions_view(old(self).actions@).push(action@));
    }

    /// Replaces the first action with the same identifier. Returns whether one was found.
    /// The keyword automaton becomes stale either way.
    pub fn update(&mut self, action: Action) -> (r: bool)
        ensures
            r == (position_of_id(old(self).actions(), action@.id) < old(self).actions().len()),
            r ==> final(self).actions() == old(self).actions().update(
                position_of_id(old(self).actions(), action@.id),
                action@,
            ),
            !r ==> final(self).actions() == old(self).actions(),
            final(self).keywords_stale(),
    {
        let ghost v = self.actions();
        proof {
            lemma_position_bounds(v, action@.id);
        }
        let mut i: usize = 0;
        while i < self.actions.len()
            invariant
                v == actions_view(self.actions@),
                self.actions@ == old(self).actions@,
                self.keyword_matcher == old(self).keyword_matcher,
                i <= self.actions@.len(),
                0 <= position_of_id(v, action@.id) <= v.len(),
                position_of_id(v, action@.id) < v.len() ==> v[position_of_id(v, action@.id)].id
                    == action@.id,
                forall|j: int| 0 <= j < position_of_id(v, action@.id) ==> v[j].id != action@.id,
                forall|j: int| 0 <= j < i ==> v[j].id != action@.id,
            decreases self.actions@.len() - i,
        {
            if self.actions[i].id.eq(&action.id) {
                assert(v[i as int].id == action@.id);
                assert(position_of_id(v, action@.id) == i);
                let ghost av = action@;
                self.actions.set(i, action);
                self.keyword_matcher.invalidate();
                assert(actions_view(self.actions@) =~= v.update(i as int, av));
                return true;
            }
            i = i + 1;
        }
        self.keyword_matcher.invalidate();
        false
    }

    /// Removes every action with identifier `id`. Returns whether any was removed. The
    /// keyword automaton becomes stale either way.
    pub fn remove(&mut self, id: &str) -> (r: bool)
        ensures
            final(self).actions() == old(self).actions().filter(|a: ActionView| a.id != id@),
            r == (final(self).actions().len() != old(self).actions().len()),
            final(self).keywords_stale(),
    {
        let ghost v = self.actions();
        let ghost pred = |a: ActionView| a.id != id@;
        let mut kept: Vec<Action> = Vec::new();
        let mut i: usize = 0;
        let key = String::from_str(id);
        while i < self.actions.len()
            invariant
                v == actions_view(self.actions@),
                v == old(self).actions(),
                pred == (|a: ActionView| a.id != id@),
                key@ == id@,
                i <= self.actions@.len(),
                actions_view(kept@) == v.subrange(0, i as int).filter(pred),
            decreases self.actions@.len() - i,
        {
            assert(v.subrange(0, i + 1).drop_last() =~= v.subrange(0, i as int));
            assert(v.subrange(0, i + 1).last() == self.actions@[i as int]@);
            let ghost before_push = actions_view(kept@);
            let drop = self.actions[i].id.eq(&key);
            if !drop {
                kept.push(self.actions[i].duplicate());
            }
            proof {
                reveal(Seq::filter);
                let w = v.subrange(0, i + 1);
                assert(w.filter(pred) == (if pred(w.last()) {
                    w.drop_last().filter(pred).push(w.last())
                } else {
                    w.drop_last().filter(pred)
                }));
                assert(pred(w.last()) == !drop);
                assert(actions_view(kept@) =~= w.filter(pred));
            }
            i = i + 1;
        }
        assert(v.subrange(0, v.len() as int) =~= v);
        let before = self.actions.len();
        let after = kept.len();
        self.actions = kept;
        self.keyword_matcher.invalidate();
        before != after
    }

    /// Flips `enabled` of the first action with identifier `id`. Returns whether one was
    /// found. The keyword automaton becomes stale either way.
    pub fn toggle(&mut self, id: &str) -> (r: bool)
        ensures
            r == (position_of_id(old(self).actions(), id@) < old(self).actions().len()),
            r ==> final(self).actions() == old(self).actions().update(
                position_of_id(old(self).actions(), id@),
                ActionView {
                    enabled: !old(self).actions()[position_of_id(old(self).actions(), id@)].enabled,
                    ..old(self).actions()[position_of_id(old(self).actions(), id@)]
                },
            ),
            !r ==> final(self).actions() == old(self).actions(),
            final(self).keywords_stale(),
    {
        let ghost v = self.actions();
        proof {
            lemma_position_bounds(v, id@);
        }
        let key = String::from_str(id);
        let mut i: usize = 0;
        while i < self.actions.len()
            invariant
                v == actions_view(self.actions@),
                self.actions@ == old(self).actions@,
                self.keyword_matcher == old(self).keyword_matcher,
                key@ == id@,
                i <= self.actions@.len(),
                0 <= position_of_id(v, id@) <= v.len(),
                position_of_id(v, id@) < v.len() ==> v[position_of_id(v, id@)].id == id@,
                forall|j: int| 0 <= j < position_of_id(v, id@) ==> v[j].id != id@,
                forall|j: int| 0 <= j < i ==> v[j].id != id@,
            decreases self.actions@.len() - i,
        {
            assert(v[i as int] == self.actions@[i as int]@);
            if self.actions[i].id.eq(&key) {
                assert(v[i as int].id == id@);
                assert(position_of_id(v, id@) == i);
                let mut a = self.actions[i].duplicate();
                a.enabled = !a.enabled;
                let ghost av = a@;
                self.actions.set(i, a);
                self.keyword_matcher.invalidate();
                assert(actions_view(self.actions@) =~= v.update(i as int, av));
                return true;
            }
            i = i + 1;
        }
        self.keyword_matcher.invalidate();
        false
    }

    /// The actions, in order.
    pub fn get_all(&self) -> (r: &Vec<Action>)
        ensures
            actions_view(r@) == self.actions(),
    {
        &self.actions
    }

    /// The actions whose kind `filter` accepts, in order.
    pub fn get_by_type<F: Fn(&ActionKind) -> bool>(&self, filter: F) -> (r: Vec<Action>)
        requires
            forall|k: &ActionKind| #[trigger] filter.requires((k,)),
        ensures
            exists|picked: Seq<bool>|
                #![trigger select(self.actions(), picked)]
                picked.len() == self.actions().len() && actions_view(r@) == select(self.actions(), picked)
                    && forall|i: int|
                    0 <= i < picked.len() ==> filter.ensures((&self.action_values()[i].kind,), #[trigger] picked[i]),
    {
        let ghost v = self.actions();
        let ghost mut picked: Seq<bool> = Seq::empty();
        let mut out: Vec<Action> = Vec::new();
        let mut i: usize = 0;
        while i < self.actions.len()
            invariant
                v == self.actions(),
                forall|k: &ActionKind| #[trigger] filter.requires((k,)),
                i <= v.len(),
                picked.len() == i,
                actions_view(out@) == select(v.subrange(0, i as int), picked),
                forall|j: int| 0 <= j < i ==> filter.ensures((&self.actions@[j].kind,), #[trigger] picked[j]),
            decreases v.len() - i,
        {
            let keep = filter(&self.actions[i].kind);
            let ghost before = actions_view(out@);
            if keep {
                out.push(self.actions[i].duplicate());
            }
            proof {
                let w = v.subrange(0, i + 1);
                let p2 = picked.push(keep);
                assert(w.drop_last() =~= v.subrange(0, i as int));
                assert(p2.drop_last() =~= picked);
                assert(w.last() == self.actions@[i as int]@);
                assert(actions_view(out@) =~= select(w, p2));
                picked = p2;
            }
            i = i + 1;
        }
        assert(v.subrange(0, v.len() as int) =~= v);
        out
    }

    /// The steps of a search for `query`: for each enabled action in order, its row or
    /// its script run when it matches. Rebuilds the keyword automaton first if stale.
    pub fn search(&mut self, query: &str) -> (r: Vec<DispatchStep>)
        ensures
            steps_view(r@) == dispatch(old(self).actions(), query@),
            final(self).actions() == old(self).actions(),
            !final(self).keywords_stale(),
    {
        if self.keyword_matcher.needs_rebuild() {
            self.rebuild_keyword_matcher();
        }
        let ghost v = self.actions();
        let mut out: Vec<DispatchStep> = Vec::new();
        let mut i: usize = 0;
        while i < self.actions.len()
            invariant
                v == actions_view(self.actions@),
                v == old(self).actions(),
                !self.keywords_stale(),
                i <= self.actions@.len(),
                steps_view(out@) == dispatch(v.subrange(0, i as int), query@),
            decreases self.actions@.len() - i,
        {
            let mut more = steps_for(&self.actions[i], query);
            let ghost prev = out@;
            let ghost add = more@;
            out.append(&mut more);
            proof {
                assert(v.subrange(0, i + 1).drop_last() =~= v.subrange(0, i as int));
                assert(steps_view(out@) =~= steps_view(prev) + steps_view(add));
            }
            i = i + 1;
        }
        assert(v.subrange(0, v.len() as int) =~= v);
        out
    }

    /// Adds each default quick link whose identifier is not taken yet.
    pub fn import_defaults(&mut self)
        ensures
            final(self).actions() == import_all(old(self).actions(), default_quick_links()),
    {
        let defaults = default_quick_link_actions();
        let mut i: usize = 0;
        while i < defaults.len()
            invariant
                actions_view(defaults@) == default_quick_links(),
                i <= defaults@.len(),
                self.actions() == import_all(old(self).actions(), actions_view(defaults@).subrange(0, i as int)),
            decreases defaults@.len() - i,
        {
            let d = defaults[i].duplicate();
            assert(actions_view(defaults@).subrange(0, i + 1).drop_last() =~= actions_view(defaults@).subrange(0, i as int));
            let ghost cur = self.actions();
            let mut found = false;
            let mut j: usize = 0;
            while j < self.actions.len()
                invariant
                    cur == self.actions(),
                    j <= self.actions@.len(),
                    found == (exists|k: int| 0 <= k < j && cur[k].id == d@.id),
                decreases self.actions@.len() - j,
            {
                assert(cur[j as int] == self.actions@[j as int]@);
                if self.actions[j].id.eq(&d.id) {
                    found = true;
                }
                j = j + 1;
            }
            if !found {
                self.add(d);
            }
            i = i + 1;
        }
        assert(actions_view(defaults@).subrange(0, defaults@.len() as int) =~= default_quick_links());
    }
}

/// What a script run gave: its rows, or an error message.
pub open spec fn outcomes_view(v: Seq<Result<Vec<ActionResult>, String>>) -> Seq<Result<Seq<ActionResultView>, Seq<char>>> {
    v.map_values(|o: Result<Vec<ActionResult>, String>| match o {
        Ok(rows) => Ok(results_view(rows@)),
        Err(e) => Err(e@),
    })
}

/// The number of script runs among `steps`.
pub open spec fn script_count(steps: Seq<StepView>) -> nat
    decreases steps.len(),
{
    if steps.len() == 0 {
        0
    } else {
        script_count(steps.drop_last()) + if steps.last() is RunScript {
            1nat
        } else {
            0nat
        }
    }
}

/// The row that reports a failed script run.
pub open spec fn error_row(req: ScriptRequestView, e: Seq<char>) -> ActionResultView {
    ActionResultView {
        id: req.action_id + ":error"@,
        title: "Script Error"@,
        subtitle: "Failed to execute: "@ + e,
        icon: "exclamationmark.triangle"@,
        icon_path: None,
        score: 0,
        action: ResultActionView::CopyText(e),
        quicklook: None,
    }
}

pub open spec fn outcome_rows(req: ScriptRequestView, o: Result<Seq<ActionResultView>, Seq<char>>) -> Seq<ActionResultView> {
    match o {
        Ok(rows) => rows,
        Err(e) => seq![error_row(req, e)],
    }
}

/// The rows of a search: ready rows as they are, and in place of each script run the
/// rows of its outcome, or one error row.
pub open spec fn assemble(steps: Seq<StepView>, outs: Seq<Result<Seq<ActionResultView>, Seq<char>>>) -> Seq<ActionResultView>
    decreases steps.len(),
{
    if steps.len() == 0 {
        Seq::empty()
    } else {
        match steps.last() {
            StepView::Ready(r) => assemble(steps.drop_last(), outs) + seq![r],
            StepView::RunScript(req) => assemble(steps.drop_last(), outs.drop_last()) + outcome_rows(
                req,
                outs.last(),
            ),
        }
    }
}

proof fn lemma_script_count_prefix(s: Seq<StepView>, i: int)
    requires
        0 <= i <= s.len(),
    ensures
        script_count(s.subrange(0, i)) <= script_count(s),
    decreases s.len() - i,
{
    if i < s.len() {
        lemma_script_count_prefix(s, i + 1);
        assert(s.subrange(0, i + 1).drop_last() =~= s.subrange(0, i));
        assert(script_count(s.subrange(0, i)) <= script_count(s.subrange(0, i + 1)));
    } else {
        assert(s.subrange(0, i) =~= s);
    }
}

fn error_result(req: &ScriptRequest, e: &String) -> (r: ActionResult)
    ensures
        r@ == error_row(req@, e@),
{
    ActionResult::new(
        req.action_id.clone().concat(":error"),
        String::from_str("Script Error"),
        String::from_str("Failed to execute: ").concat(e.as_str()),
        String::from_str("exclamationmark.triangle"),
        0,
        ResultAction::CopyText(e.clone()),
    )
}

/// Merges the outcomes of the script runs, in order, into the steps of a search.
pub fn complete_search(steps: &Vec<DispatchStep>, outcomes: &Vec<Result<Vec<ActionResult>, String>>) -> (r: Vec<ActionResult>)
    requires
        outcomes@.len() == script_count(steps_view(steps@)),
    ensures
        results_view(r@) == assemble(steps_view(steps@), outcomes_view(outcomes@)),
{
    let ghost sv = steps_view(steps@);
    let ghost ov = outcomes_view(outcomes@);
    let mut out: Vec<ActionResult> = Vec::new();
    let mut i: usize = 0;
    let mut k: usize = 0;
    while i < steps.len()
        invariant
            sv == steps_view(steps@),
            ov == outcomes_view(outcomes@),
            outcomes@.len() == script_count(sv),
            i <= steps@.len(),
            k == script_count(sv.subrange(0, i as int)),
            results_view(out@) == assemble(sv.subrange(0, i as int), ov.subrange(0, k as int)),
        decreases steps@.len() - i,
    {
        proof {
            lemma_script_count_prefix(sv, i + 1);
            assert(sv.subrange(0, i + 1).drop_last() =~= sv.subrange(0, i as int));
        }
        match &steps[i] {
            DispatchStep::Ready(row) => {
                assert(sv.subrange(0, i + 1).last() == sv[i as int]);
                out.push(row.duplicate());
                assert(results_view(out@) =~= assemble(sv.subrange(0, i + 1), ov.subrange(0, k as int)));
            },
            DispatchStep::RunScript(req) => {
                assert(sv.subrange(0, i + 1).last() == sv[i as int]);
                assert(script_count(sv.subrange(0, i + 1)) == k + 1);
                let n_out = outcomes.len();
                assert(k < n_out);
                assert(ov.subrange(0, k + 1).drop_last() =~= ov.subrange(0, k as int));
                assert(ov.subrange(0, k + 1).last() == ov[k as int]);
                let ghost prev = results_view(out@);
                match &outcomes[k] {
                    Ok(rows) => {
                        let mut j: usize = 0;
                        while j < rows.len()
                            invariant
                                j <= rows@.len(),
                                results_view(out@) == prev + results_view(rows@).subrange(0, j as int),
                            decreases rows@.len() - j,
                        {
                            assert(results_view(rows@)[j as int] == rows@[j as int]@);
                            assert(results_view(rows@).subrange(0, j + 1) =~= results_view(rows@).subrange(0, j as int).push(rows@[j as int]@));
                            let ghost before_row = results_view(out@);
                            out.push(rows[j].duplicate());
                            assert(results_view(out@) =~= before_row.push(rows@[j as int]@));
                            assert(results_view(out@) =~= prev + results_view(rows@).subrange(0, j + 1));
                            j = j + 1;
                        }
                        assert(results_view(rows@).subrange(0, rows@.len() as int) =~= results_view(rows@));
                    },
                    Err(e) => {
                        out.push(error_result(req, e));
                        assert(results_view(out@) =~= prev + seq![error_row(req@, e@)]);
                    },
                }
                assert(results_view(out@) =~= assemble(sv.subrange(0, i + 1), ov.subrange(0, k + 1)));
                k = k + 1;
            },
        }
        i = i + 1;
    }
    assert(sv.subrange(0, sv.len() as int) =~= sv);
    assert(ov.subrange(0, ov.len() as int) =~= ov);
    out
}

/// Disabled actions are invisible: a search over the action set gives the same steps
/// as a search over its enabled actions alone.
pub proof fn lemma_disabled_invisible(actions: Seq<ActionView>, q: Seq<char>)
    ensures
        dispatch(actions, q) == dispatch(actions.filter(|a: ActionView| a.enabled), q),
    decreases actions.len(),
{
    let pred = |a: ActionView| a.enabled;
    reveal(Seq::filter);
    if actions.len() > 0 {
        lemma_disabled_invisible(actions.drop_last(), q);
        let f = actions.filter(pred);
        if actions.last().enabled {
            assert(f.drop_last() =~= actions.drop_last().filter(pred));
            assert(f.last() == actions.last());
        } else {
            assert(f =~= actions.drop_last().filter(pred));
            assert(dispatch(actions, q) =~= dispatch(actions.drop_last(), q));
        }
    }
}

} // verus!

//! Actions, the results they produce, and their mathematical views.
use vstd::prelude::*;

use crate::text::{split_whitespace_owned, strings_view, whitespace_tokens};

verus! {

/// What a pattern action does once its captures are bound.
#[derive(Debug, Clone, PartialEq, Eq)]
pub enum PatternActionType {
    OpenUrl(String),
    CopyText(String),
    RunCommand { cmd: String, args: Vec<String> },
}

/// The three kinds of action.
#[derive(Debug, Clone, PartialEq, Eq)]
pub enum ActionKind {
    QuickLink { keyword: String, url: String },
    Pattern { pattern: String, action: PatternActionType },
    ScriptFilter { keyword: String, script_path: String, extension_dir: String },
}

/// A user-defined action.
#[derive(Debug, Clone, PartialEq, Eq)]
pub struct Action {
    pub id: String,
    pub name: String,
    pub icon: String,
    pub enabled: bool,
    pub kind: ActionKind,
}

/// What a result does when chosen.
#[derive(Debug, Clone, PartialEq, Eq)]
pub enum ResultAction {
    OpenUrl(String),
    CopyText(String),
    RunCommand { cmd: String, args: Vec<String> },
}

/// A result row. `score` orders rows: a quick link scores 100, a pattern 95,
/// a script item 200 and a script error 0.
#[derive(Debug, Clone, PartialEq, Eq)]
pub struct ActionResult {
    pub id: String,
    pub title: String,
    pub subtitle: String,
    pub icon: String,
    pub icon_path: Option<String>,
    pub score: u32,
    pub action: ResultAction,
    pub quicklook: Option<String>,
}

pub ghost enum PatternActionView {
    OpenUrl(Seq<char>),
    CopyText(Seq<char>),
    RunCommand { cmd: Seq<char>, args: Seq<Seq<char>> },
}

pub ghost enum ActionKindView {
    QuickLink { keyword: Seq<char>, url: Seq<char> },
    Pattern { pattern: Seq<char>, action: PatternActionView },
    ScriptFilter { keyword: Seq<char>, script_path: Seq<char>, extension_dir: Seq<char> },
}

pub ghost struct ActionView {
    pub id: Seq<char>,
    pub name: Seq<char>,
    pub icon: Seq<char>,
    pub enabled: bool,
    pub kind: ActionKindView,
}

pub ghost enum ResultActionView {
    OpenUrl(Seq<char>),
    CopyText(Seq<char>),
    RunCommand { cmd: Seq<char>, args: Seq<Seq<char>> },
}

pub ghost struct ActionResultView {
    pub id: Seq<char>,
    pub title: Seq<char>,
    pub subtitle: Seq<char>,
    pub icon: Seq<char>,
    pub icon_path: Option<Seq<char>>,
    pub score: u32,
    pub action: ResultActionView,
    pub quicklook: Option<Seq<char>>,
}

pub open spec fn opt_view(o: Option<String>) -> Option<Seq<char>> {
    match o {
        Some(s) => Some(s@),
        None => None,
    }
}

impl View for PatternActionType {
    type V = PatternActionView;

    open spec fn view(&self) -> PatternActionView {
        match self {
            PatternActionType::OpenUrl(u) => PatternActionView::OpenUrl(u@),
            PatternActionType::CopyText(t) => PatternActionView::CopyText(t@),
            PatternActionType::RunCommand { cmd, args } => PatternActionView::RunCommand {
                cmd: cmd@,
                args: strings_view(args@),
            },
        }
    }
}

impl View for ActionKind {
    type V = ActionKindView;

    open spec fn view(&self) -> ActionKindView {
        match self {
            ActionKind::QuickLink { keyword, url } => ActionKindView::QuickLink {
                keyword: keyword@,
                url: url@,
            },
            ActionKind::Pattern { pattern, action } => ActionKindView::Pattern {
                pattern: pattern@,
                action: action@,
            },
            ActionKind::ScriptFilter { keyword, script_path, extension_dir } =>
                ActionKindView::ScriptFilter {
                keyword: keyword@,
                script_path: script_path@,
                extension_dir: extension_dir@,
            },
        }
    }
}

impl View for Action {
    type V = ActionView;

    open spec fn view(&self) -> ActionView {
        ActionView {
            id: self.id@,
            name: self.name@,
            icon: self.icon@,
            enabled: self.enabled,
            kind: self.kind@,
        }
    }
}

impl View for ResultAction {
    type V = ResultActionView;

    open spec fn view(&self) -> ResultActionView {
        match self {
            ResultAction::OpenUrl(u) => ResultActionView::OpenUrl(u@),
            ResultAction::CopyText(t) => ResultActionView::CopyText(t@),
            ResultAction::RunCommand { cmd, args } => ResultActionView::RunCommand {
                cmd: cmd@,
                args: strings_view(args@),
            },
        }
    }
}

impl View for ActionResult {
    type V = ActionResultView;

    open spec fn view(&self) -> ActionResultView {
        ActionResultView {
            id: self.id@,
            title: self.title@,
            subtitle: self.subtitle@,
            icon: self.icon@,
            icon_path: opt_view(self.icon_path),
            score: self.score,
            action: self.action@,
            quicklook: opt_view(self.quicklook),
        }
    }
}

/// The words that invoke an action.
pub open spec fn action_triggers(a: ActionView) -> Seq<Seq<char>> {
    match a.kind {
        ActionKindView::QuickLink { keyword, .. } => seq![keyword],
        ActionKindView::ScriptFilter { keyword, .. } => seq![keyword],
        ActionKindView::Pattern { pattern, .. } => if whitespace_tokens(pattern).len() > 0 {
            seq![whitespace_tokens(pattern)[0]]
        } else {
            seq![pattern]
        },
    }
}

pub open spec fn actions_view(v: Seq<Action>) -> Seq<ActionView> {
    v.map_values(|a: Action| a@)
}

pub open spec fn results_view(v: Seq<ActionResult>) -> Seq<ActionResultView> {
    v.map_values(|r: ActionResult| r@)
}

/// A copy of a list of strings.
pub fn copy_strings(v: &Vec<String>) -> (r: Vec<String>)
    ensures
        strings_view(r@) == strings_view(v@),
{
    let mut r: Vec<String> = Vec::new();
    let mut i: usize = 0;
    while i < v.len()
        invariant
            i <= v@.len(),
            r@.len() == i,
            forall|j: int| 0 <= j < i ==> r@[j]@ == v@[j]@,
        decreases v@.len() - i,
    {
        let s = v[i].clone();
        r.push(s);
        i = i + 1;
    }
    assert(strings_view(r@) =~= strings_view(v@));
    r
}

impl PatternActionType {
    pub fn duplicate(&self) -> (r: Self)
        ensures
            r@ == self@,
    {
        match self {
            PatternActionType::OpenUrl(u) => PatternActionType::OpenUrl(u.clone()),
            PatternActionType::CopyText(t) => PatternActionType::CopyText(t.clone()),
            PatternActionType::RunCommand { cmd, args } => PatternActionType::RunCommand {
                cmd: cmd.clone(),
                args: copy_strings(args),
            },
        }
    }
}

impl ActionKind {
    pub fn duplicate(&self) -> (r: Self)
        ensures
            r@ == self@,
    {
        match self {
            ActionKind::QuickLink { keyword, url } => ActionKind::QuickLink {
                keyword: keyword.clone(),
                url: url.clone(),
            },
            ActionKind::Pattern { pattern, action } => ActionKind::Pattern {
                pattern: pattern.clone(),
                action: action.duplicate(),
            },
            ActionKind::ScriptFilter { keyword, script_path, extension_dir } =>
                ActionKind::ScriptFilter {
                keyword: keyword.clone(),
                script_path: script_path.clone(),
                extension_dir: extension_dir.clone(),
            },
        }
    }
}

impl Action {
    /// An enabled quick link: `keyword` followed by a query opens `url` with
    /// `{query}` replaced by the encoded query.
    pub fn quick_link(id: String, name: String, keyword: String, url: String, icon: String) -> (r: Self)
        ensures
            r@ == (ActionView {
                id: id@,
                name: name@,
                icon: icon@,
                enabled: true,
                kind: ActionKindView::QuickLink { keyword: keyword@, url: url@ },
            }),
    {
        Action { id, name, icon, enabled: true, kind: ActionKind::QuickLink { keyword, url } }
    }

    /// An enabled pattern action.
    pub fn pattern(id: String, name: String, pattern: String, action: PatternActionType, icon: String) -> (r: Self)
        ensures
            r@ == (ActionView {
                id: id@,
                name: name@,
                icon: icon@,
                enabled: true,
                kind: ActionKindView::Pattern { pattern: pattern@, action: action@ },
            }),
    {
        Action { id, name, icon, enabled: true, kind: ActionKind::Pattern { pattern, action } }
    }

    /// An enabled script filter.
    pub fn script_filter(
        id: String,
        name: String,
        keyword: String,
        script_path: String,
        extension_dir: String,
        icon: String,
    ) -> (r: Self)
        ensures
            r@ == (ActionView {
                id: id@,
                name: name@,
                icon: icon@,
                enabled: true,
                kind: ActionKindView::ScriptFilter {
                    keyword: keyword@,
                    script_path: script_path@,
                    extension_dir: extension_dir@,
                },
            }),
    {
        Action {
            id,
            name,
            icon,
            enabled: true,
            kind: ActionKind::ScriptFilter { keyword, script_path, extension_dir },
        }
    }

    /// The words that invoke this action: its keyword, or the first word of its pattern
    /// (the whole pattern when it has no word).
    pub fn triggers(&self) -> (r: Vec<String>)
        ensures
            strings_view(r@) == action_triggers(self@),
    {
        let mut r: Vec<String> = Vec::new();
        match &self.kind {
            ActionKind::QuickLink { keyword, .. } => r.push(keyword.clone()),
            ActionKind::ScriptFilter { keyword, .. } => r.push(keyword.clone()),
            ActionKind::Pattern { pattern, .. } => {
                let words = split_whitespace_owned(pattern.as_str());
                if words.len() > 0 {
                    assert(strings_view(words@)[0] == words@[0]@);
                    r.push(words[0].clone());
                } else {
                    r.push(pattern.clone());
                }
            },
        }
        assert(strings_view(r@) =~= action_triggers(self@));
        r
    }

    pub fn duplicate(&self) -> (r: Self)
        ensures
            r@ == self@,
    {
        Action {
            id: self.id.clone(),
            name: self.name.clone(),
            icon: self.icon.clone(),
            enabled: self.enabled,
            kind: self.kind.duplicate(),
        }
    }
}

impl ResultAction {
    pub fn duplicate(&self) -> (r: Self)
        ensures
            r@ == self@,
    {
        match self {
            ResultAction::OpenUrl(u) => ResultAction::OpenUrl(u.clone()),
            ResultAction::CopyText(t) => ResultAction::CopyText(t.clone()),
            ResultAction::RunCommand { cmd, args } => ResultAction::RunCommand {
                cmd: cmd.clone(),
                args: copy_strings(args),
            },
        }
    }
}

fn copy_opt(o: &Option<String>) -> (r: Option<String>)
    ensures
        opt_view(r) == opt_view(*o),
{
    match o {
        Some(s) => Some(s.clone()),
        None => None,
    }
}

impl ActionResult {
    pub fn duplicate(&self) -> (r: Self)
        ensures
            r@ == self@,
    {
        ActionResult {
            id: self.id.clone(),
            title: self.title.clone(),
            subtitle: self.subtitle.clone(),
            icon: self.icon.clone(),
            icon_path: copy_opt(&self.icon_path),
            score: self.score,
            action: self.action.duplicate(),
            quicklook: copy_opt(&self.quicklook),
        }
    }

    /// A result with no icon path and no quick-look URL.
    pub fn new(
        id: String,
        title: String,
        subtitle: String,
        icon: String,
        score: u32,
        action: ResultAction,
    ) -> (r: Self)
        ensures
            r@ == (ActionResultView {
                id: id@,
                title: title@,
                subtitle: subtitle@,
                icon: icon@,
                icon_path: None,
                score,
                action: action@,
                quicklook: None,
            }),
    {
        ActionResult { id, title, subtitle, icon, icon_path: None, score, action, quicklook: None }
    }

    /// The same result with an icon path.
    pub fn with_icon_path(self, path: String) -> (r: Self)
        ensures
            r@ == (ActionResultView { icon_path: Some(path@), ..self@ }),
    {
        let mut r = self;
        r.icon_path = Some(path);
        r
    }

    /// The same result with a quick-look URL.
    pub fn with_quicklook(self, url: String) -> (r: Self)
        ensures
            r@ == (ActionResultView { quicklook: Some(url@), ..self@ }),
    {
        let mut r = self;
        r.quicklook = Some(url);
        r
    }
}

} // verus!

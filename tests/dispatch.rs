use launcher_core::action::{Action, ActionResult, PatternActionType, ResultAction};
use launcher_core::automaton::KeywordMatcherCache;
use launcher_core::dispatch::{complete_search, match_quick_link, ActionManager, DispatchStep};
use launcher_core::pattern::{create_result, expand_template, match_pattern};

fn s(x: &str) -> String {
    x.to_string()
}

fn rows(manager: &mut ActionManager, query: &str) -> Vec<ActionResult> {
    let steps = manager.search(query);
    complete_search(&steps, &Vec::new())
}

fn github_quick_link() -> Action {
    Action::quick_link(
        s("gh"),
        s("GitHub"),
        s("gh"),
        s("https://github.com/search?q={query}"),
        s("magnifyingglass"),
    )
}

#[test]
fn quick_link_expansion() {
    let mut m = ActionManager::new(vec![github_quick_link()]);
    let r = rows(&mut m, "gh rust");
    assert_eq!(r.len(), 1);
    assert_eq!(r[0].title, "GitHub: rust");
    assert_eq!(r[0].subtitle, "https://github.com/search?q=rust");
    assert_eq!(r[0].action, ResultAction::OpenUrl(s("https://github.com/search?q=rust")));
    assert_eq!(r[0].score, 100);
    assert_eq!(r[0].id, "gh:rust");
}

#[test]
fn quick_link_encodes_the_query() {
    let mut m = ActionManager::new(vec![github_quick_link()]);
    let r = rows(&mut m, "gh hello world");
    assert_eq!(r.len(), 1);
    assert_eq!(r[0].subtitle, "https://github.com/search?q=hello%20world");
    assert_eq!(r[0].title, "GitHub: hello world");
}

#[test]
fn pattern_capture() {
    let action = Action::pattern(
        s("gh-repo"),
        s("GitHub Repo"),
        s("gh {owner}/{repo}"),
        PatternActionType::OpenUrl(s("https://github.com/{owner}/{repo}")),
        s("icon"),
    );
    let mut m = ActionManager::new(vec![action]);
    let r = rows(&mut m, "gh rust-lang/rust");
    assert_eq!(r.len(), 1);
    assert_eq!(r[0].action, ResultAction::OpenUrl(s("https://github.com/rust-lang/rust")));
    assert_eq!(r[0].score, 95);
    assert_eq!(r[0].title, "gh rust-lang/rust");
    assert_eq!(r[0].subtitle, "https://github.com/rust-lang/rust");
}

#[test]
fn toggle_hides() {
    let mut m = ActionManager::new(vec![github_quick_link()]);
    assert_eq!(rows(&mut m, "gh rust").len(), 1);
    assert!(m.toggle("gh"));
    assert!(rows(&mut m, "gh rust").is_empty());
    assert!(!m.toggle("missing"));
}

#[test]
fn disabled_actions_never_appear() {
    let mut a = github_quick_link();
    a.enabled = false;
    let mut m = ActionManager::new(vec![a, github_quick_link()]);
    let r = rows(&mut m, "gh x");
    assert_eq!(r.len(), 1);
}

#[test]
fn keyword_cache_is_stale_after_each_mutation() {
    let mut m = ActionManager::new(Vec::new());
    let _ = m.search("x");
    m.add(github_quick_link());
    let _ = m.search("x");
    let mut updated = github_quick_link();
    updated.name = s("Hub");
    assert!(m.update(updated));
    assert_eq!(m.get_all()[0].name, "Hub");
    assert!(m.remove("gh"));
    assert!(m.get_all().is_empty());
    assert!(!m.remove("gh"));
}

#[test]
fn keyword_cache_flags() {
    let mut cache = KeywordMatcherCache::new();
    assert!(cache.needs_rebuild());
    cache.rebuild(vec![s("gh"), s("g")]);
    assert!(!cache.needs_rebuild());
    assert_eq!(cache.with_automaton(|a| a.patterns_len()), Some(2));
    cache.invalidate();
    assert!(cache.needs_rebuild());
    assert_eq!(cache.with_automaton(|a| a.patterns_len()), None);
    cache.rebuild(Vec::new());
    assert!(!cache.needs_rebuild());
    assert_eq!(cache.with_automaton(|a| a.patterns_len()), None);
}

#[test]
fn script_filter_becomes_a_run_request() {
    let a = Action::script_filter(s("sf"), s("Script"), s("sf"), s("run.sh"), s("/ext"), s("icon"));
    let mut m = ActionManager::new(vec![a]);
    let steps = m.search("  sf   some query  ");
    assert_eq!(steps.len(), 1);
    match &steps[0] {
        DispatchStep::RunScript(req) => {
            assert_eq!(req.action_id, "sf");
            assert_eq!(req.script_path, "run.sh");
            assert_eq!(req.extension_dir, "/ext");
            assert_eq!(req.query, "some query");
        }
        DispatchStep::Ready(_) => panic!("expected a script run"),
    }
}

#[test]
fn script_error_becomes_an_error_row() {
    let a = Action::script_filter(s("sf"), s("Script"), s("sf"), s("run.sh"), s("/ext"), s("icon"));
    let mut m = ActionManager::new(vec![a]);
    let steps = m.search("sf q");
    let r = complete_search(&steps, &vec![Err(s("Script timed out after 2000ms"))]);
    assert_eq!(r.len(), 1);
    assert_eq!(r[0].id, "sf:error");
    assert_eq!(r[0].title, "Script Error");
    assert_eq!(r[0].subtitle, "Failed to execute: Script timed out after 2000ms");
    assert_eq!(r[0].icon, "exclamationmark.triangle");
    assert_eq!(r[0].score, 0);
    assert_eq!(r[0].action, ResultAction::CopyText(s("Script timed out after 2000ms")));
}

#[test]
fn script_rows_are_spliced_in_order() {
    let sf = Action::script_filter(s("sf"), s("Script"), s("sf"), s("run.sh"), s("/ext"), s("icon"));
    let ql = Action::quick_link(s("s"), s("Search"), s("sf"), s("https://s/{query}"), s("i"));
    let mut m = ActionManager::new(vec![sf, ql]);
    let steps = m.search("sf q");
    let item = ActionResult::new(s("a"), s("A"), s(""), s("doc.text"), 200, ResultAction::CopyText(s("A")));
    let r = complete_search(&steps, &vec![Ok(vec![item.clone(), item])]);
    assert_eq!(r.len(), 3);
    assert_eq!(r[0].score, 200);
    assert_eq!(r[2].subtitle, "https://s/q");
}

#[test]
fn import_defaults_adds_six_once() {
    let mut m = ActionManager::new(vec![github_quick_link()]);
    m.import_defaults();
    assert_eq!(m.get_all().len(), 7);
    m.import_defaults();
    assert_eq!(m.get_all().len(), 7);
    let ids: Vec<&str> = m.get_all().iter().map(|a| a.id.as_str()).collect();
    assert_eq!(ids, vec!["gh", "google", "duckduckgo", "github", "stackoverflow", "wikipedia", "youtube"]);
}

#[test]
fn quick_link_keyword_rules() {
    assert_eq!(match_quick_link("  gh   rust  ", "gh"), Some(s("rust")));
    assert_eq!(match_quick_link("gh", "gh"), Some(s("")));
    assert_eq!(match_quick_link("gh\trust", "gh"), Some(s("rust")));
    assert_eq!(match_quick_link("ghrust", "gh"), None);
    assert_eq!(match_quick_link("g rust", "gh"), None);
    assert_eq!(match_quick_link(" gh rust", " gh"), None);
}

#[test]
fn pattern_match_rules() {
    let c = match_pattern("gh {owner}/{repo}", "gh rust-lang/rust").unwrap();
    assert_eq!(c, vec![(s("owner"), s("rust-lang")), (s("repo"), s("rust"))]);
    assert!(match_pattern("gh {x}", "gh ").is_none());
    assert!(match_pattern("gh {x}", "gh").is_none());
    assert!(match_pattern("gh {x}", "gh a b").is_none());
    assert!(match_pattern("gh {a}/{b}", "gh /b").is_none());
    assert!(match_pattern("gh {a}-x", "gh abc-y").is_none());
    assert!(match_pattern("go {a", "go abc").is_none());
    assert_eq!(match_pattern("a  b", "a b"), Some(Vec::new()));
    assert!(match_pattern("a b", "a c").is_none());
}

#[test]
fn expansion_restores_input() {
    let c = match_pattern("open {file}.{ext} now", "open notes.md   now").unwrap();
    assert_eq!(expand_template("open {file}.{ext} now", &c), "open notes.md now");
}

#[test]
fn expand_template_keeps_unknown_placeholders() {
    let caps = vec![(s("a"), s("1")), (s("a"), s("2"))];
    assert_eq!(expand_template("x{a}y{b}z{", &caps), "x2y{b}z{");
}

#[test]
fn create_result_for_commands() {
    let caps = vec![(s("f"), s("a.txt"))];
    let r = create_result(
        "act",
        "Act",
        "cat {f}",
        &PatternActionType::RunCommand { cmd: s("cat"), args: vec![s("-n"), s("{f}")] },
        &caps,
        "icon",
    );
    assert_eq!(r.id, "act:cat a.txt");
    assert_eq!(r.subtitle, "Run: cat -n a.txt");
    let r2 = create_result("act", "Act", "c {f}", &PatternActionType::CopyText(s("<{f}>")), &caps, "i");
    assert_eq!(r2.subtitle, "Copy: <a.txt>");
    assert_eq!(r2.action, ResultAction::CopyText(s("<a.txt>")));
}

#[test]
fn actions_by_kind() {
    let pattern = Action::pattern(s("p"), s("P"), s("x {a}"), PatternActionType::CopyText(s("{a}")), s("i"));
    let m = ActionManager::new(vec![github_quick_link(), pattern]);
    let links = m.get_by_type(|k| matches!(k, launcher_core::action::ActionKind::QuickLink { .. }));
    assert_eq!(links.len(), 1);
    assert_eq!(links[0].id, "gh");
    assert!(m.get_by_type(|_| false).is_empty());
}

#[test]
fn action_triggers() {
    assert_eq!(github_quick_link().triggers(), vec![s("gh")]);
    let p = Action::pattern(s("p"), s("P"), s("  go {x} now"), PatternActionType::CopyText(s("")), s("i"));
    assert_eq!(p.triggers(), vec![s("go")]);
    let blank = Action::pattern(s("p"), s("P"), s("  "), PatternActionType::CopyText(s("")), s("i"));
    assert_eq!(blank.triggers(), vec![s("  ")]);
}

#[test]
fn every_mutation_marks_keywords_stale() {
    let mut m = ActionManager::new(vec![github_quick_link()]);
    assert!(!m.needs_keyword_rebuild());
    assert!(!m.update(Action::quick_link(s("nope"), s("N"), s("n"), s("u"), s("i"))));
    assert!(m.needs_keyword_rebuild());
    let _ = m.search("x");
    assert!(!m.needs_keyword_rebuild());
    assert!(!m.remove("nope"));
    assert!(m.needs_keyword_rebuild());
    let _ = m.search("x");
    assert!(!m.toggle("nope"));
    assert!(m.needs_keyword_rebuild());
    let _ = m.search("x");
    m.add(github_quick_link());
    assert!(m.needs_keyword_rebuild());
}

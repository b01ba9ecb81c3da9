//! Snippet expansion: finds the rightmost trigger of an enabled snippet in typed text.
use vstd::prelude::*;
use vstd::utf8::encode_utf8;

use aho_corasick::AhoCorasick;

use crate::automaton::{
    automaton_patterns, build_automaton_leftmost_longest, buildable, find_last_match, last_match, occurs_ending_at,
    utf8_all,
};
use crate::text::strings_view;

verus! {

/// A snippet as the matcher sees it.
#[derive(Debug, Clone, PartialEq, Eq)]
pub struct Snippet {
    pub id: String,
    pub trigger: String,
    pub content: String,
    pub enabled: bool,
}

pub ghost struct SnippetView {
    pub id: Seq<char>,
    pub trigger: Seq<char>,
    pub content: Seq<char>,
    pub enabled: bool,
}

impl View for Snippet {
    type V = SnippetView;

    open spec fn view(&self) -> SnippetView {
        SnippetView { id: self.id@, trigger: self.trigger@, content: self.content@, enabled: self.enabled }
    }
}

pub open spec fn snippets_view(v: Seq<Snippet>) -> Seq<SnippetView> {
    v.map_values(|s: Snippet| s@)
}

pub open spec fn triggers_of(v: Seq<SnippetView>) -> Seq<Seq<char>> {
    v.map_values(|s: SnippetView| s.trigger)
}

/// Enabled snippets and an automaton over their triggers.
pub struct SnippetMatcher {
    snippets: Vec<Snippet>,
    automaton: Option<AhoCorasick>,
}

impl SnippetMatcher {
    /// The snippets held, in order.
    pub closed spec fn snippets(&self) -> Seq<SnippetView> {
        snippets_view(self.snippets@)
    }

    /// Whether an automaton is held (there are triggers and it could be built).
    pub closed spec fn has_automaton(&self) -> bool {
        self.automaton is Some
    }

    /// The automaton searches for exactly the held triggers, numbered in order.
    pub closed spec fn wf(&self) -> bool {
        match self.automaton {
            Some(a) => automaton_patterns(a) == utf8_all(triggers_of(self.snippets())),
            None => true,
        }
    }

    pub fn new() -> (r: Self)
        ensures
            r.wf(),
            r.snippets() == Seq::<SnippetView>::empty(),
            !r.has_automaton(),
    {
        let r = SnippetMatcher { snippets: Vec::new(), automaton: None };
        assert(r.snippets() =~= Seq::<SnippetView>::empty());
        r
    }

    /// Keeps the enabled snippets of `snippets` and rebuilds the automaton over their
    /// triggers; with no triggers there is no automaton.
    pub fn update_snippets(&mut self, snippets: Vec<Snippet>)
        ensures
            final(self).wf(),
            final(self).snippets() == snippets_view(snippets@).filter(|s: SnippetView| s.enabled),
            final(self).snippets().len() == 0 ==> !final(self).has_automaton(),
            final(self).snippets().len() > 0 && buildable(utf8_all(triggers_of(final(self).snippets())))
                ==> final(self).has_automaton(),
    {
        let ghost all = snippets_view(snippets@);
        let ghost pred = |s: SnippetView| s.enabled;
        let mut kept: Vec<Snippet> = Vec::new();
        let mut triggers: Vec<String> = Vec::new();
        let mut i: usize = 0;
        while i < snippets.len()
            invariant
                all == snippets_view(snippets@),
                pred == (|s: SnippetView| s.enabled),
                i <= snippets@.len(),
                snippets_view(kept@) == all.subrange(0, i as int).filter(pred),
                strings_view(triggers@) == triggers_of(snippets_view(kept@)),
            decreases snippets@.len() - i,
        {
            let s = &snippets[i];
            let ghost w = all.subrange(0, i + 1);
            proof {
                reveal(Seq::filter);
                assert(w.drop_last() =~= all.subrange(0, i as int));
                assert(w.last() == s@);
            }
            if s.enabled {
                let ghost before = snippets_view(kept@);
                let ghost tbefore = strings_view(triggers@);
                kept.push(Snippet {
                    id: s.id.clone(),
                    trigger: s.trigger.clone(),
                    content: s.content.clone(),
                    enabled: s.enabled,
                });
                triggers.push(s.trigger.clone());
                assert(snippets_view(kept@) =~= before.push(s@));
                assert(strings_view(triggers@) =~= tbefore.push(s@.trigger));
                assert(triggers_of(before.push(s@)) =~= triggers_of(before).push(s@.trigger));
            }
            assert(snippets_view(kept@) =~= w.filter(pred));
            i = i + 1;
        }
        assert(all.subrange(0, all.len() as int) =~= all);
        let automaton = build_automaton_leftmost_longest(&triggers);
        proof {
            assert(triggers@.map_values(|s: String| s@) =~= strings_view(triggers@));
        }
        self.snippets = kept;
        self.automaton = automaton;
    }

    /// The rightmost trigger in `text`: the last match of a leftmost-longest scan, as
    /// (trigger, content, end offset in bytes).
    pub fn find_match(&self, text: &str) -> (r: Option<(String, String, usize)>)
        requires
            self.wf(),
        ensures
            !self.has_automaton() ==> r is None,
            self.has_automaton() ==> match last_match(
                utf8_all(triggers_of(self.snippets())),
                encode_utf8(text@),
            ) {
                None => r is None,
                Some(m) => r matches Some(t) && t.0@ == self.snippets()[m.0 as int].trigger
                    && t.1@ == self.snippets()[m.0 as int].content && t.2 == m.1,
            },
            self.has_automaton() && r is None ==> forall|i: int, e: int|
                0 <= i < self.snippets().len() ==> !#[trigger] occurs_ending_at(
                    encode_utf8(self.snippets()[i].trigger),
                    encode_utf8(text@),
                    e,
                ),
            r matches Some(t) ==> exists|i: int|
                0 <= i < self.snippets().len() && t.0@ == self.snippets()[i].trigger && t.1@
                    == self.snippets()[i].content && occurs_ending_at(
                    encode_utf8(self.snippets()[i].trigger),
                    encode_utf8(text@),
                    t.2 as int,
                ),
    {
        match &self.automaton {
            None => None,
            Some(a) => match find_last_match(a, text) {
                None => {
                    proof {
                        assert forall|i: int, e: int| 0 <= i < self.snippets().len() implies !#[trigger] occurs_ending_at(
                            encode_utf8(self.snippets()[i].trigger),
                            encode_utf8(text@),
                            e,
                        ) by {
                            assert(automaton_patterns(*a)[i] == encode_utf8(self.snippets()[i].trigger));
                        }
                    }
                    None
                },
                Some((idx, end)) => {
                    let s = &self.snippets[idx];
                    proof {
                        assert(automaton_patterns(*a)[idx as int] == encode_utf8(self.snippets()[idx as int].trigger));
                    }
                    Some((s.trigger.clone(), s.content.clone(), end))
                },
            },
        }
    }

    /// (snippets held, enabled snippets held).
    pub fn stats(&self) -> (r: (usize, usize))
        ensures
            r.0 == self.snippets().len(),
            r.1 == self.snippets().filter(|s: SnippetView| s.enabled).len(),
    {
        let ghost v = self.snippets();
        let ghost pred = |s: SnippetView| s.enabled;
        let mut enabled: usize = 0;
        let mut i: usize = 0;
        while i < self.snippets.len()
            invariant
                v == self.snippets(),
                pred == (|s: SnippetView| s.enabled),
                i <= v.len(),
                enabled == v.subrange(0, i as int).filter(pred).len(),
                enabled <= i,
            decreases v.len() - i,
        {
            let ghost w = v.subrange(0, i + 1);
            proof {
                reveal(Seq::filter);
                assert(w.drop_last() =~= v.subrange(0, i as int));
                assert(w.last() == self.snippets@[i as int]@);
            }
            if self.snippets[i].enabled {
                enabled = enabled + 1;
            }
            i = i + 1;
        }
        assert(v.subrange(0, v.len() as int) =~= v);
        (self.snippets.len(), enabled)
    }
}

} // verus!

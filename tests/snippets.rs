use launcher_core::snippet_matcher::{Snippet, SnippetMatcher};
use launcher_core::snippet_store::{Snippet as StoredSnippet, SnippetStorage};

fn snip(id: &str, trigger: &str, content: &str, enabled: bool) -> Snippet {
    Snippet { id: id.to_owned(), trigger: trigger.to_owned(), content: content.to_owned(), enabled }
}

#[test]
fn test_basic_matching() {
    let mut matcher = SnippetMatcher::new();

    let snippets = vec![snip("1", "\\email", "test@example.com", true), snip("2", "\\phone", "123-456-7890", true)];

    matcher.update_snippets(snippets);

    let result = matcher.find_match("Please contact me at \\email for");
    assert!(result.is_some());
    let (trigger, content, _pos) = result.unwrap();
    assert_eq!(&*trigger, "\\email");
    assert_eq!(&*content, "test@example.com");
}

#[test]
fn test_rightmost_match() {
    let mut matcher = SnippetMatcher::new();

    let snippets = vec![snip("1", "\\test", "replacement", true)];

    matcher.update_snippets(snippets);

    let result = matcher.find_match("\\test some text \\test");
    assert!(result.is_some());
    let (_, _, pos) = result.unwrap();
    assert_eq!(pos, "\\test some text \\test".len());
}

#[test]
fn test_disabled_snippets() {
    let mut matcher = SnippetMatcher::new();

    let snippets = vec![snip("1", "\\enabled", "yes", true), snip("2", "\\disabled", "no", false)];

    matcher.update_snippets(snippets);

    assert!(matcher.find_match("\\enabled").is_some());
    assert!(matcher.find_match("\\disabled").is_none());
    assert_eq!(matcher.stats(), (1, 1));
}

#[test]
fn no_snippets_no_matches() {
    let mut matcher = SnippetMatcher::new();
    assert!(matcher.find_match("anything").is_none());
    matcher.update_snippets(vec![snip("1", "\\x", "y", false)]);
    assert!(matcher.find_match("\\x").is_none());
    assert_eq!(matcher.stats(), (0, 0));
}

#[test]
fn longest_trigger_wins_at_a_position() {
    let mut matcher = SnippetMatcher::new();
    matcher.update_snippets(vec![snip("1", "\\e", "short", true), snip("2", "\\email", "long", true)]);
    let (trigger, content, end) = matcher.find_match("x \\email").unwrap();
    assert_eq!(trigger, "\\email");
    assert_eq!(content, "long");
    assert_eq!(end, 8);
}

#[test]
fn lib_test_new_storage() {
    let storage = SnippetStorage::new("snippets.bin".to_owned(), Vec::new());
    assert_eq!(storage.len(), 0);
    assert!(storage.is_empty());
}

#[test]
fn lib_test_add_and_retrieve() {
    let mut storage = SnippetStorage::new("snippets.bin".to_owned(), Vec::new());

    let snippet = StoredSnippet::new("\\email".to_owned(), "test@example.com".to_owned());
    storage.add(snippet);

    assert_eq!(storage.len(), 1);

    let snippets = storage.get_all();
    assert_eq!(snippets.len(), 1);
    assert_eq!(snippets[0].trigger, "\\email");
    assert_eq!(snippets[0].content, "test@example.com");
}

#[test]
fn test_update() {
    let mut storage = SnippetStorage::new("snippets.bin".to_owned(), Vec::new());

    let snippet = StoredSnippet::new("\\test".to_owned(), "Original".to_owned());
    storage.add(snippet.clone());

    let mut updated = snippet;
    updated.content = "Updated".to_owned();
    let result = storage.update(updated);
    assert!(result);

    let snippets = storage.get_all();
    assert_eq!(snippets[0].content, "Updated");
}

#[test]
fn test_delete() {
    let mut storage = SnippetStorage::new("snippets.bin".to_owned(), Vec::new());

    let snippet = StoredSnippet::new("\\test".to_owned(), "Content".to_owned());
    let id = snippet.id.clone();
    storage.add(snippet);

    assert_eq!(storage.len(), 1);
    let deleted = storage.delete(&id);
    assert!(deleted);
    assert_eq!(storage.len(), 0);
}

#[test]
fn stored_snippet_constructors() {
    let a = StoredSnippet::new("\\a".to_owned(), "A".to_owned());
    let b = StoredSnippet::new("\\a".to_owned(), "A".to_owned());
    assert_eq!(a.id.len(), 36);
    assert_ne!(a.id, b.id);
    assert_eq!(a.category, "General");
    let c = StoredSnippet::with_category("\\p".to_owned(), "1".to_owned(), "Contact".to_owned());
    assert_eq!(c.category, "Contact");
    let d = StoredSnippet::with_all("i".to_owned(), "t".to_owned(), "c".to_owned(), false, "k".to_owned());
    assert!(!d.enabled);
    let mut storage = SnippetStorage::new("s".to_owned(), vec![c, d]);
    assert_eq!(storage.get_enabled().len(), 1);
    assert!(!storage.update(StoredSnippet::with_all("none".to_owned(), "".to_owned(), "".to_owned(), true, "".to_owned())));
    assert!(!storage.delete("none"));
}

#[test]
fn import_merges_or_replaces() {
    let mut storage = SnippetStorage::new("s".to_owned(), Vec::new());
    storage.add(StoredSnippet::new("\\existing".to_owned(), "Existing".to_owned()));
    let incoming = vec![StoredSnippet::with_all(
        "test-id".to_owned(),
        "\\new".to_owned(),
        "New".to_owned(),
        true,
        "General".to_owned(),
    )];
    assert_eq!(storage.import_snippets(incoming.clone(), true), 1);
    assert_eq!(storage.len(), 2);
    assert_eq!(storage.import_snippets(incoming, false), 1);
    assert_eq!(storage.len(), 1);
    assert_eq!(storage.get_all()[0].id, "test-id");
}

#[test]
fn uuid_identifiers_have_the_v4_form() {
    let a = StoredSnippet::new("\\a".to_owned(), "A".to_owned());
    let b: Vec<char> = a.id.chars().collect();
    assert_eq!(b.len(), 36);
    for i in [8, 13, 18, 23] {
        assert_eq!(b[i], '-');
    }
    assert_eq!(b[14], '4');
    assert!("89ab".contains(b[19]));
}

#[test]
fn find_match_reports_an_occurrence() {
    let mut matcher = SnippetMatcher::new();
    matcher.update_snippets(vec![snip("1", "::sig", "Regards", true)]);
    let (trigger, _, end) = matcher.find_match("a ::sig b").unwrap();
    assert_eq!(&"a ::sig b"[end - trigger.len()..end], "::sig");
    assert!(matcher.find_match("a :sig b").is_none());
}

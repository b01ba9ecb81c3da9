use launcher_core::file_index::FileEntry;
use launcher_core::fuzzy::{calculate_bonus, FuzzyMatcher};
use launcher_core::indexer::{IndexedItem, Indexer, ItemType};
use launcher_core::search::{FileSource, SearchEngine, SearchError};

fn item(id: &str, name: &str, kind: ItemType, path: Option<&str>) -> IndexedItem {
    IndexedItem {
        id: id.into(),
        name: name.into(),
        item_type: kind,
        path: path.map(|p| p.to_string()),
        metadata: None,
    }
}

#[test]
fn test_exact_match() {
    let mut matcher = FuzzyMatcher::new();
    let score = matcher.fuzzy_match("Safari", "Safari");
    assert!(score.is_some());
    assert!(score.unwrap() > 0);
}

#[test]
fn test_fuzzy_match() {
    let mut matcher = FuzzyMatcher::new();

    let score = matcher.fuzzy_match("Visual Studio Code", "vsc");
    assert!(score.is_some());

    let score = matcher.fuzzy_match("Safari", "saf");
    assert!(score.is_some());
}

#[test]
fn test_no_match() {
    let mut matcher = FuzzyMatcher::new();
    let score = matcher.fuzzy_match("Safari", "xyz");
    assert!(score.is_none());
}

#[test]
fn test_case_insensitive() {
    let mut matcher = FuzzyMatcher::new();
    let score1 = matcher.fuzzy_match("Safari", "safari");
    let score2 = matcher.fuzzy_match("Safari", "saf");
    let score3 = matcher.fuzzy_match("Visual Studio Code", "code");
    assert!(score1.is_some());
    assert!(score2.is_some());
    assert!(score3.is_some());
}

#[test]
fn bonus_values() {
    // exact (10000) + prefix (5000) + start (2000) + two adjacent pairs (200), no penalty
    assert_eq!(calculate_bonus("Saf", "saf", 40, &vec![0, 1, 2]), 40 + 17200);
    // prefix only, penalty (6 - 3) * 10
    assert_eq!(calculate_bonus("Safari", "saf", 40, &vec![0, 1, 2]), 40 + 7200 - 30);
    // no text bonus, start elsewhere, one adjacent pair, penalty (18 - 3) * 10
    assert_eq!(calculate_bonus("Visual Studio Code", "vsc", 10, &vec![0, 7, 8]), 10 + 2000 + 100 - 150);
    // a candidate shorter than the query has no penalty
    assert_eq!(calculate_bonus("ab", "abcd", 5, &vec![]), 5);
}

#[test]
fn exact_match_outscores_prefix() {
    let mut matcher = FuzzyMatcher::new();
    let exact = matcher.fuzzy_match("Safari", "safari").unwrap();
    let prefix = matcher.fuzzy_match("Safari", "saf").unwrap();
    assert!(exact > prefix);
    assert!(matcher.match_indices("Safari", "saf").unwrap().starts_with(&[0]));
}

#[test]
fn test_add_and_get_item() {
    let mut indexer = Indexer::new();
    indexer.add_item(item("test1", "Test App", ItemType::Application, Some("/Applications/Test.app")));
    assert_eq!(indexer.get_item("test1").unwrap().name.as_str(), "Test App");
}

#[test]
fn test_remove_item() {
    let mut indexer = Indexer::new();
    indexer.add_item(item("test1", "Test App", ItemType::Application, None));
    assert!(indexer.remove_item("test1").is_some());
    assert!(indexer.get_item("test1").is_none());
}

#[test]
fn test_stats() {
    let mut indexer = Indexer::new();
    indexer.add_item(item("app1", "App", ItemType::Application, None));
    indexer.add_item(item("file1", "File", ItemType::File, None));
    let (total, apps, files, _) = indexer.stats();
    assert_eq!(total, 2);
    assert_eq!(apps, 1);
    assert_eq!(files, 1);
}

#[test]
fn counters_follow_replacement_and_clearing() {
    let mut indexer = Indexer::new();
    indexer.add_items(vec![
        item("a", "A", ItemType::Application, None),
        item("b", "B", ItemType::Snippet, None),
        item("c", "C", ItemType::Custom("tag".into()), None),
    ]);
    assert_eq!(indexer.stats(), (3, 1, 0, 1));
    indexer.add_item(item("a", "A2", ItemType::File, None));
    assert_eq!(indexer.stats(), (3, 0, 1, 1));
    assert_eq!(indexer.clear_by_type(&ItemType::Custom("tag".into())), 1);
    assert_eq!(indexer.stats(), (2, 0, 1, 1));
    assert_eq!(indexer.remove_items(&vec!["a".to_string(), "zz".to_string()]), 1);
    assert_eq!(indexer.get_items_by_type(&ItemType::Snippet).len(), 1);
    indexer.clear();
    assert_eq!(indexer.stats(), (0, 0, 0, 0));
}

#[test]
fn test_search_basic() {
    let mut engine = SearchEngine::new();
    engine.indexer_mut().add_item(item(
        "1",
        "Visual Studio Code",
        ItemType::Application,
        Some("/Applications/Visual Studio Code.app"),
    ));
    engine.indexer_mut().add_item(item("2", "Safari", ItemType::Application, Some("/Applications/Safari.app")));

    let results = engine.search("vsc", 10, &FileSource::Disabled).unwrap();
    assert!(!results.is_empty());
    assert_eq!(results[0].item.name.as_str(), "Visual Studio Code");
}

#[test]
fn empty_query_is_refused() {
    let mut engine = SearchEngine::new();
    assert_eq!(engine.search("", 10, &FileSource::Disabled).unwrap_err(), SearchError::QueryTooShort);
}

#[test]
fn results_are_ranked_and_limited() {
    let mut engine = SearchEngine::new();
    for (id, name) in [("1", "notes"), ("2", "note"), ("3", "Notebook"), ("4", "zzz")] {
        engine.indexer_mut().add_item(item(id, name, ItemType::Application, None));
    }
    let all = engine.search("note", 10, &FileSource::Disabled).unwrap();
    assert_eq!(all.len(), 3);
    assert_eq!(all[0].item.name, "note");
    for w in all.windows(2) {
        assert!(w[0].score > w[1].score || (w[0].score == w[1].score && w[0].item.name <= w[1].item.name));
    }
    let top = engine.search("note", 1, &FileSource::Disabled).unwrap();
    assert_eq!(top.len(), 1);
    assert_eq!(top[0].item.name, "note");
}

#[test]
fn new_generation_clears_the_cache() {
    let mut engine = SearchEngine::new();
    let first = FileSource::Indexed {
        generation: 1,
        entries: vec![FileEntry { path: "/d/alpha.md".into(), name: "alpha.md".into() }],
    };
    let r1 = engine.search("alpha", 10, &first).unwrap();
    assert_eq!(r1.len(), 1);
    assert_eq!(r1[0].item.id, "/d/alpha.md");
    assert_eq!(r1[0].item.item_type, ItemType::File);

    // Same generation: the cached ranking is reused even though the entries changed.
    let same = FileSource::Indexed {
        generation: 1,
        entries: vec![
            FileEntry { path: "/d/alpha.md".into(), name: "alpha.md".into() },
            FileEntry { path: "/d/alpha2.md".into(), name: "alpha2.md".into() },
        ],
    };
    assert_eq!(engine.search("alpha", 10, &same).unwrap().len(), 1);

    // A new generation drops the cache: the new entry is seen.
    let next = FileSource::Indexed { generation: 2, entries: match same {
        FileSource::Indexed { entries, .. } => entries,
        _ => unreachable!(),
    } };
    assert_eq!(engine.search("alpha", 10, &next).unwrap().len(), 2);
}

#[test]
fn clear_cache_forces_a_fresh_ranking() {
    let mut engine = SearchEngine::new();
    engine.indexer_mut().add_item(item("1", "Safari", ItemType::Application, None));
    assert_eq!(engine.search("saf", 10, &FileSource::Disabled).unwrap().len(), 1);
    engine.indexer_mut().add_item(item("2", "Safe", ItemType::Application, None));
    assert_eq!(engine.search("saf", 10, &FileSource::Disabled).unwrap().len(), 1);
    engine.clear_cache();
    assert_eq!(engine.search("saf", 10, &FileSource::Disabled).unwrap().len(), 2);
}

#[test]
fn scanned_files_are_candidates() {
    let mut engine = SearchEngine::new();
    let scanned = FileSource::Scanned(vec![item("/x/report.pdf", "report.pdf", ItemType::File, Some("/x/report.pdf"))]);
    let r = engine.search("report", 5, &scanned).unwrap();
    assert_eq!(r.len(), 1);
    assert_eq!(r[0].item.name, "report.pdf");
}

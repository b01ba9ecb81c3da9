use launcher_core::action::{ActionResult, ResultAction};
use launcher_core::file_index::{
    accepts_extension, normalize_path, should_skip, FileEntry, FileEventKind, FileIndex, FileIndexerConfig,
    ScanWalk,
};
use launcher_core::records::{normalize_timezone, AppEntry, AppSettings, ClipboardItemType, SettingsStorage};
use launcher_core::script::{
    create_script_results, resolve_script_path, script_arg_action, to_decimal, ScriptCache, ScriptIcon,
    ScriptItem,
};
use launcher_core::store::{RecordStore, Storage};

fn s(x: &str) -> String {
    x.to_string()
}

fn row(title: &str, url: &str) -> ActionResult {
    ActionResult::new(s("id"), s(title), s(""), s("doc.text"), 200, ResultAction::OpenUrl(s(url)))
}

#[test]
fn script_cache_ttl() {
    let mut cache = ScriptCache::new();
    let (miss, key) = cache.lookup("/ext/s.sh", "q", 0);
    assert!(miss.is_none());
    assert!(cache.check_cache(key, 0).is_none());
    cache.store_cache(key, vec![row("T", "https://x/")], 0);
    let hit = cache.check_cache(key, 500).unwrap();
    assert_eq!(hit.len(), 1);
    assert_eq!(hit[0].action, ResultAction::OpenUrl(s("https://x/")));
    assert!(cache.check_cache(key, 1999).is_some());
    assert!(cache.check_cache(key, 2000).is_none());
    assert!(cache.check_cache(key, 2500).is_none());
    let (again, key2) = cache.lookup("/ext/s.sh", "q", 700);
    assert_eq!(key2, key);
    assert_eq!(again.unwrap().len(), 1);
    assert!(cache.lookup("/ext/other.sh", "q", 700).0.is_none());
}

#[test]
fn script_arg_actions() {
    let t = s("Title");
    assert_eq!(script_arg_action(&Some(s("https://x/")), &t), ResultAction::OpenUrl(s("https://x/")));
    assert_eq!(script_arg_action(&Some(s("obsidian://open")), &t), ResultAction::OpenUrl(s("obsidian://open")));
    assert_eq!(
        script_arg_action(&Some(s("cmd:ls -la")), &t),
        ResultAction::RunCommand { cmd: s("/bin/sh"), args: vec![s("-c"), s("ls -la")] }
    );
    assert_eq!(script_arg_action(&Some(s("/tmp/a")), &t), ResultAction::OpenUrl(s("file:///tmp/a")));
    assert_eq!(script_arg_action(&Some(s("~/a")), &t), ResultAction::OpenUrl(s("file://~/a")));
    assert_eq!(script_arg_action(&Some(s("plain")), &t), ResultAction::OpenUrl(s("plain")));
    assert_eq!(script_arg_action(&None, &t), ResultAction::CopyText(s("Title")));
}

fn script_item(title: &str, arg: Option<&str>, valid: bool, uid: Option<&str>, icon: Option<&str>) -> ScriptItem {
    ScriptItem {
        title: s(title),
        subtitle: None,
        arg: arg.map(s),
        icon: icon.map(|p| ScriptIcon { path: s(p), icon_type: None }),
        valid,
        autocomplete: None,
        quicklook: None,
        uid: uid.map(s),
    }
}

#[test]
fn script_results_from_items() {
    let items = vec![
        script_item("T", Some("https://x/"), true, None, Some("icon.png")),
        script_item("Hidden", None, false, None, None),
        script_item("U", None, true, Some("u-1"), Some("/abs/i.png")),
        script_item("V", None, true, None, Some("missing.png")),
    ];
    let r = create_script_results(&items, "act", "/ext", &vec![true, false, true, false]);
    assert_eq!(r.len(), 3);
    assert_eq!(r[0].id, "act-0");
    assert_eq!(r[0].icon_path, Some(s("/ext/icon.png")));
    assert_eq!(r[0].score, 200);
    assert_eq!(r[0].icon, "doc.text");
    assert_eq!(r[1].id, "u-1");
    assert_eq!(r[1].icon_path, Some(s("/abs/i.png")));
    assert_eq!(r[1].action, ResultAction::CopyText(s("U")));
    assert_eq!(r[2].id, "act-3");
    assert_eq!(r[2].icon_path, None);
}

#[test]
fn script_paths_and_numbers() {
    assert_eq!(resolve_script_path("/bin/x", "/ext"), "/bin/x");
    assert_eq!(resolve_script_path("run.sh", "/ext"), "/ext/run.sh");
    assert_eq!(resolve_script_path("run.sh", "/ext/"), "/ext/run.sh");
    assert_eq!(resolve_script_path("run.sh", ""), "run.sh");
    assert_eq!(to_decimal(0), "0");
    assert_eq!(to_decimal(1203), "1203");
}

#[test]
fn file_entry_from_path() {
    let e = FileEntry::from_path("/home/u/X.md").unwrap();
    assert_eq!(e.name, "X.md");
    assert_eq!(e.path, "/home/u/X.md");
    assert_eq!(FileEntry::from_path("/home/u/dir/").unwrap().name, "dir");
    assert!(FileEntry::from_path("/").is_none());
    assert!(FileEntry::from_path("/a/..").is_none());
    assert_eq!(e.normalized_key(), "/home/u/X.md");
    assert_eq!(normalize_path("/A/b"), "/A/b");
}

#[test]
fn extension_rules() {
    let exts = vec![s("md"), s("rs")];
    assert!(accepts_extension("/a/X.MD", &exts));
    assert!(accepts_extension("/a/main.rs", &exts));
    assert!(!accepts_extension("/a/.md", &exts));
    assert!(!accepts_extension("/a/readme", &exts));
    assert!(!accepts_extension("/a/x.txt", &exts));
    let config = FileIndexerConfig::default();
    assert!(should_skip(".hidden", &config));
    assert!(should_skip("node_modules", &config));
    assert!(!should_skip("src", &config));
    assert_eq!(config.max_files, 10000);
    assert_eq!(config.max_depth, 5);
    assert!(!config.enabled);
}

#[test]
fn file_index_live_update() {
    let mut config = FileIndexerConfig::default();
    config.enabled = true;
    let mut index = FileIndex::new(Vec::new());
    let g0 = index.generation();
    assert!(index.handle_event(FileEventKind::CreateOrModify, "/w/X.md", true, true, &config));
    assert!(index.generation() > g0);
    assert!(index.get_all_files().iter().any(|e| e.name == "X.md"));
    let g1 = index.generation();
    assert!(index.handle_event(FileEventKind::Remove, "/w/X.md", false, false, &config));
    assert!(index.generation() > g1);
    assert!(index.get_all_files().is_empty());
    assert!(!index.handle_event(FileEventKind::Remove, "/w/X.md", false, false, &config));
    assert!(!index.handle_event(FileEventKind::CreateOrModify, "/w/a.bin", true, true, &config));
    assert!(!index.handle_event(FileEventKind::Other, "/w/Y.md", true, true, &config));
    assert_eq!(index.file_count(), 0);
}

#[test]
fn file_index_seeding_and_batches() {
    let mut index = FileIndex::new(vec![
        FileEntry { path: s("/a/x.md"), name: s("x.md") },
        FileEntry { path: s("/a/x.md"), name: s("x.md") },
    ]);
    assert_eq!(index.file_count(), 1);
    assert!(index.take_initial_scan());
    assert!(!index.take_initial_scan());
    let mut batch = vec![FileEntry { path: s("/a/y.md"), name: s("y.md") }];
    index.flush_batch(&mut batch);
    assert!(batch.is_empty());
    assert_eq!(index.file_count(), 2);
    let g = index.generation();
    index.scan_finished();
    assert_eq!(index.generation(), g + 1);
}

#[test]
fn clipboard_codes() {
    assert_eq!(ClipboardItemType::Text.as_u8(), 0);
    assert_eq!(ClipboardItemType::Image.as_u8(), 1);
    assert_eq!(ClipboardItemType::Unknown.as_u8(), 2);
    assert_eq!(ClipboardItemType::from_u8(1), ClipboardItemType::Image);
    assert_eq!(ClipboardItemType::from_u8(9), ClipboardItemType::Unknown);
}

#[test]
fn test_default_settings() {
    let storage = SettingsStorage::new(s("settings.bin"), Vec::new());
    let settings = storage.get();
    assert_eq!(settings.theme, "dark");
    assert_eq!(settings.max_results, 7);
}

#[test]
fn settings_save_replaces() {
    let mut storage = SettingsStorage::new(s("settings.bin"), Vec::new());
    let mut settings = storage.get().clone();
    settings.theme = "light".to_string();
    settings.max_results = 10;
    storage.save(settings);
    assert_eq!(storage.get().theme, "light");
    assert_eq!(storage.get().max_results, 10);
    assert_eq!(AppSettings::default().search_folders.len(), 3);
}

#[test]
fn timezone_names() {
    assert_eq!(normalize_timezone("est"), "America/New_York");
    assert_eq!(normalize_timezone("PST"), "America/Los_Angeles");
    assert_eq!(normalize_timezone("Europe/Berlin"), "Europe/Berlin");
}

#[test]
fn record_store_add_and_clear() {
    let mut store: RecordStore<AppEntry> = RecordStore::new(s("apps.bin"), Vec::new());
    store.add(AppEntry::new(s("Safari"), s("/Applications/Safari.app")));
    assert_eq!(Storage::len(&store), 1);
    assert_eq!(store.get_all()[0].name, "Safari");
    assert_eq!(store.path(), "apps.bin");
    Storage::clear(&mut store);
    assert!(store.is_empty());
}

#[test]
fn test_trim() {
    let mut store: RecordStore<String> = RecordStore::new(s("clip.bin"), Vec::new());
    for i in 0..10 {
        store.insert_at_front(format!("Entry {i}"));
    }
    assert_eq!(store.len(), 10);
    let removed = store.trim_to(5);
    assert_eq!(removed.len(), 5);
    assert_eq!(store.len(), 5);
    assert_eq!(store.get_all()[0], "Entry 9");
    assert_eq!(removed[0], "Entry 4");
    assert_eq!(store.get_range(3, 10), vec![s("Entry 6"), s("Entry 5")]);
    assert_eq!(store.get_range(9, 1).len(), 0);
    assert_eq!(store.find_index(|e: &String| e.ends_with('7')), Some(2));
    assert_eq!(store.find_index(|e: &String| e.is_empty()), None);
    assert!(store.trim_to(9).is_empty());
}

#[test]
fn root_times_decide_rescans() {
    let mut index = FileIndex::new(Vec::new());
    assert!(index.note_root_time("/r", 10));
    assert!(!index.note_root_time("/r", 10));
    assert!(!index.note_root_time("/r", 5));
    assert!(index.note_root_time("/r", 11));
    assert!(index.note_root_time("/s", 1));
    assert!(!index.note_root_time("/r", 11));
}

#[test]
fn memory_estimate() {
    let index = FileIndex::new(vec![FileEntry { path: s("/a/x.md"), name: s("x.md") }]);
    assert_eq!(index.estimated_memory_bytes(), 150);
}

#[test]
fn record_store_update_and_filter() {
    let mut store: RecordStore<String> = RecordStore::new(s("r.bin"), vec![s("a"), s("bb"), s("ccc")]);
    assert_eq!(store.get_filtered(|x: &String| x.len() > 1), vec![s("bb"), s("ccc")]);
    let changed = store.update(|mut v: Vec<String>| {
        v.retain(|x| x != "a");
        (v, true)
    });
    assert!(changed);
    assert_eq!(store.len(), 2);
    assert!(!store.update(|v: Vec<String>| (v, false)));
    assert_eq!(store.len(), 2);
}

#[test]
fn scan_stop_rule() {
    let mut config = FileIndexerConfig::default();
    config.max_depth = 2;
    config.max_files = 1;
    let index = FileIndex::new(Vec::new());
    assert!(!index.scan_should_stop(1, &config));
    assert!(index.scan_should_stop(2, &config));
    let full = FileIndex::new(vec![FileEntry { path: s("/a/x.md"), name: s("x.md") }]);
    assert!(full.scan_should_stop(0, &config));
}

#[test]
fn scan_walk_steps() {
    let mut config = FileIndexerConfig::default();
    config.max_depth = 2;
    let mut index = FileIndex::new(Vec::new());
    let mut walk = ScanWalk::new("/r");
    assert_eq!(walk.next_dir(&index, &config), Some((s("/r"), 0)));
    assert!(!walk.visit("/r/.git", ".git", true, false, 0, &config));
    assert!(!walk.visit("/r/sub", "sub", true, false, 0, &config));
    assert!(!walk.visit("/r/a.md", "a.md", false, true, 0, &config));
    assert!(!walk.visit("/r/b.bin", "b.bin", false, true, 0, &config));
    assert_eq!(walk.next_dir(&index, &config), Some((s("/r/sub"), 1)));
    assert!(!walk.visit("/r/sub/deeper", "deeper", true, false, 1, &config));
    assert_eq!(walk.next_dir(&index, &config), None);
    walk.flush_into(&mut index);
    assert_eq!(index.get_all_files(), vec![FileEntry { path: s("/r/a.md"), name: s("a.md") }]);
}

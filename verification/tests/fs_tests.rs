use webterm::filesystem::{join_path, ContentStore, Entry};

fn file(name: &str, url: &str, size: u64) -> Entry {
    Entry {
        filename: name.to_string(),
        url: url.to_string(),
        size,
        modified: 0,
        is_dir: false,
        entries: vec![],
    }
}

fn dir(name: &str, url: &str, entries: Vec<Entry>) -> Entry {
    Entry {
        filename: name.to_string(),
        url: url.to_string(),
        size: 0,
        modified: 0,
        is_dir: true,
        entries,
    }
}

/// docs/readme.md exists directly; docs/old holds readme.md and the
/// since-moved readme2.md.
fn sample_root() -> Entry {
    dir(
        "",
        "",
        vec![dir(
            "docs",
            "docs",
            vec![
                file("readme.md", "docs/readme.md", 10),
                dir(
                    "old",
                    "docs/old",
                    vec![
                        file("readme.md", "docs/old/readme.md", 11),
                        file("readme2.md", "docs/old/readme2.md", 12),
                    ],
                ),
            ],
        )],
    )
}

#[test]
fn direct_lookup_wins_over_fallback() {
    let root = sample_root();
    let e = root.get_file("docs/readme.md").unwrap();
    assert_eq!(e.url, "docs/readme.md");
    assert_eq!(e.size, 10);
}

#[test]
fn explicit_old_path_resolves() {
    let root = sample_root();
    let e = root.get_file("docs/old/readme.md").unwrap();
    assert_eq!(e.url, "docs/old/readme.md");
    assert_eq!(e.size, 11);
}

#[test]
fn moved_file_resolves_via_fallback() {
    let root = sample_root();
    let e = root.get_file("docs/readme2.md").unwrap();
    assert_eq!(e.url, "docs/old/readme2.md");
    assert_eq!(e.size, 12);
}

#[test]
fn missing_path_fails_with_the_path() {
    let root = sample_root();
    let err = root.get_file("docs/nope.md").unwrap_err();
    assert_eq!(err, "docs/nope.md");
}

#[test]
fn empty_path_is_the_node_itself() {
    let root = sample_root();
    let e = root.get_file("").unwrap();
    assert!(e.is_dir);
    assert_eq!(e.url, "");
}

#[test]
fn lookup_normalizes_before_walking() {
    let root = sample_root();
    let e = root.get_file("/docs/../docs/readme.md").unwrap();
    assert_eq!(e.url, "docs/readme.md");
}

#[test]
fn join_path_rules() {
    assert_eq!(join_path("docs", "a.md"), "docs/a.md");
    assert_eq!(join_path("docs", "/a.md"), "/a.md");
    assert_eq!(join_path("", "a.md"), "/a.md");
}

#[test]
fn entry_join_uses_own_url() {
    let root = sample_root();
    let docs = root.get_file("docs").unwrap();
    assert_eq!(docs.join("readme.md"), "docs/readme.md");
    assert_eq!(docs.join("/x"), "/x");
}

#[test]
fn sizes_render_plain_and_human() {
    let e = file("a", "a", 2048);
    assert_eq!(e.get_size(false), "2048");
    assert_eq!(e.get_size(true), "2.0K");
}

#[test]
fn date_renders_via_chrono() {
    let e = file("a", "a", 1);
    assert_eq!(e.get_date_str(), "Jan  1 00:00");
}

#[test]
fn well_formed_tree_is_accepted() {
    let root = sample_root();
    assert!(root.check_wf());
}

#[test]
fn duplicate_names_are_rejected() {
    let bad = dir("", "", vec![file("a", "a", 1), file("a", "a", 2)]);
    assert!(!bad.check_wf());
}

#[test]
fn wrong_child_url_is_rejected() {
    let bad = dir("", "", vec![file("a", "b", 1)]);
    assert!(!bad.check_wf());
}

#[test]
fn file_with_children_is_rejected() {
    let mut bad = file("a", "a", 1);
    bad.entries = vec![file("b", "a/b", 1)];
    assert!(!bad.check_wf());
}

#[test]
fn content_store_lookup() {
    let mut store = ContentStore::new();
    store.add("docs/readme.md".to_string(), "hello".to_string());
    let root = sample_root();
    let e = root.get_file("docs/readme.md").unwrap();
    assert_eq!(e.load(&store).unwrap(), "hello");
    let other = root.get_file("docs/old/readme.md").unwrap();
    assert_eq!(other.load(&store).unwrap_err(), "docs/old/readme.md");
}

use webterm::utils::{
    human_size, join_strs, longest_common_prefix, resolve_path, resolve_path_files, split_str,
    u64_to_string,
};

#[test]
fn resolve_drops_dot_dot_segments() {
    assert_eq!(resolve_path("a/b/../c"), "a/c");
}

#[test]
fn resolve_never_escapes_root() {
    assert_eq!(resolve_path("../../x"), "x");
}

#[test]
fn resolve_empty_is_root() {
    assert_eq!(resolve_path(""), "");
}

#[test]
fn resolve_drops_dot_and_empty_segments() {
    assert_eq!(resolve_path("./a//b/."), "a/b");
    assert_eq!(resolve_path("/a/b"), "a/b");
    assert_eq!(resolve_path("a/.."), "");
}

#[test]
fn resolve_is_idempotent_on_samples() {
    let samples = [
        "a/b/../c",
        "../../x",
        "",
        "/",
        "./a//b/.",
        "a/b/c/../../d",
        "..",
        "a/../a/../a",
    ];
    for s in samples {
        let once = resolve_path(s);
        let twice = resolve_path(&once);
        assert_eq!(once, twice);
    }
}

#[test]
fn resolve_path_files_returns_segments() {
    let segs = resolve_path_files("a/b/../c/d");
    assert_eq!(segs, vec!["a".to_string(), "c".to_string(), "d".to_string()]);
}

#[test]
fn split_and_join_roundtrip() {
    let parts = split_str("a/b//c", '/');
    assert_eq!(parts, vec!["a", "b", "", "c"]);
    assert_eq!(join_strs(&parts, '/'), "a/b//c");
    assert_eq!(split_str("", '/'), vec![""]);
}

#[test]
fn longest_common_prefix_examples() {
    let v = vec!["less".to_string(), "ls".to_string()];
    assert_eq!(longest_common_prefix(&v), "l");
    let w = vec!["flower".to_string(), "flow".to_string(), "flight".to_string()];
    assert_eq!(longest_common_prefix(&w), "fl");
    let empty: Vec<String> = vec![];
    assert_eq!(longest_common_prefix(&empty), "");
    let single = vec!["abc".to_string()];
    assert_eq!(longest_common_prefix(&single), "abc");
}

#[test]
fn decimal_rendering() {
    assert_eq!(u64_to_string(0), "0");
    assert_eq!(u64_to_string(7), "7");
    assert_eq!(u64_to_string(1234567890), "1234567890");
}

#[test]
fn human_sizes() {
    assert_eq!(human_size(512), "512");
    assert_eq!(human_size(1023), "1023");
    assert_eq!(human_size(1024), "1.0K");
    assert_eq!(human_size(1536), "1.5K");
    assert_eq!(human_size(1024 * 1024), "1.0M");
    assert_eq!(human_size(3 * 1024 * 1024 * 1024 / 2), "1.5G");
}

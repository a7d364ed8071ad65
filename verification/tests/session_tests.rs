use webterm::app::App;
use webterm::filesystem::{ContentStore, Entry};
use webterm::Term;

fn file(name: &str, url: &str, size: u64) -> Entry {
    Entry {
        filename: name.to_string(),
        url: url.to_string(),
        size,
        modified: 0,
        is_dir: false,
        entries: vec![],
    }
}

fn dir(name: &str, url: &str, entries: Vec<Entry>) -> Entry {
    Entry {
        filename: name.to_string(),
        url: url.to_string(),
        size: 0,
        modified: 0,
        is_dir: true,
        entries,
    }
}

fn sample_term_at(location: &str) -> Term {
    let root = dir(
        "",
        "",
        vec![
            dir("docs", "docs", vec![file("readme.md", "docs/readme.md", 22)]),
            dir("projects", "projects", vec![file("one.txt", "projects/one.txt", 3)]),
        ],
    );
    let mut store = ContentStore::new();
    store.add("docs/readme.md".to_string(), "first line\nsecond line".to_string());
    store.add("projects/one.txt".to_string(), "one".to_string());
    let mut term = Term::new(root, store).unwrap();
    term.init(24, 80, location);
    term
}

#[test]
fn init_on_a_file_installs_the_pager_at_the_top() {
    let term = sample_term_at("/docs/readme.md");
    match &term.app {
        App::Pager(pg) => {
            assert_eq!(pg.line, 0);
            assert_eq!(pg.lines, vec!["first line".to_string(), "second line".to_string()]);
        },
        _ => panic!("pager not active"),
    }
    assert_eq!(term.state.path, "docs");
}

#[test]
fn init_pager_output_shows_the_content() {
    let root = dir("", "", vec![file("a.txt", "a.txt", 2)]);
    let mut store = ContentStore::new();
    store.add("a.txt".to_string(), "hello pager".to_string());
    let mut term = Term::new(root, store).unwrap();
    let out = term.init(24, 80, "/a.txt");
    assert!(out.contains("hello pager"));
}

#[test]
fn quitting_the_pager_returns_to_a_cleared_shell() {
    let mut term = sample_term_at("/docs/readme.md");
    let step = term.readline("q");
    assert!(matches!(term.app, App::Shell(_)));
    assert!(step.out.contains("\r$ "));
    assert_eq!(step.navs, vec!["/docs".to_string()]);
    assert_eq!(term.state.cursor_x, 2);
    assert_eq!(term.state.cursor_y, 0);
}

#[test]
fn full_scenario_pager_quit_cd_up_and_ls() {
    let mut term = sample_term_at("/docs/readme.md");
    term.readline("q");
    let cd = term.readline("cd ..\r");
    assert_eq!(term.state.path, "");
    assert_eq!(cd.navs, vec!["/".to_string()]);
    let ls = term.readline("ls\r");
    assert!(ls.out.contains("docs"));
    assert!(ls.out.contains("projects"));
}

#[test]
fn init_on_a_directory_installs_the_shell_there() {
    let term = sample_term_at("/docs");
    assert!(matches!(term.app, App::Shell(_)));
    assert_eq!(term.state.path, "docs");
    assert_eq!(term.state.height, 24);
    assert_eq!(term.state.width, 80);
}

#[test]
fn init_on_an_unresolved_location_falls_back_to_the_shell() {
    let term = sample_term_at("/nope");
    assert!(matches!(term.app, App::Shell(_)));
    assert_eq!(term.state.path, "");
}

#[test]
fn pwd_reports_the_current_directory() {
    let mut term = sample_term_at("/docs");
    let step = term.readline("pwd\r");
    assert!(step.out.contains("/docs"));
}

#[test]
fn cd_changes_directory_and_navigates() {
    let mut term = sample_term_at("/");
    let step = term.readline("cd projects\r");
    assert_eq!(term.state.path, "projects");
    assert_eq!(step.navs, vec!["/projects".to_string()]);
}

#[test]
fn cd_to_a_file_is_refused() {
    let mut term = sample_term_at("/docs");
    let step = term.readline("cd readme.md\r");
    assert!(step.out.contains("can't cd to readme.md: Not a directory"));
    assert_eq!(term.state.path, "docs");
}

#[test]
fn cd_without_argument_goes_to_the_root() {
    let mut term = sample_term_at("/docs");
    term.readline("cd\r");
    assert_eq!(term.state.path, "");
}

#[test]
fn cat_prints_file_lines() {
    let mut term = sample_term_at("/docs");
    let step = term.readline("cat readme.md\r");
    assert!(step.out.contains("first line\n\rsecond line\n\r$ "));
}

#[test]
fn cat_on_a_directory_is_refused() {
    let mut term = sample_term_at("/");
    let step = term.readline("cat docs\r");
    assert!(step.out.contains("docs: Is a directory"));
}

#[test]
fn cat_on_a_missing_file_is_refused() {
    let mut term = sample_term_at("/");
    let step = term.readline("cat nope\r");
    assert!(step.out.contains("nope: No such file or directory"));
}

#[test]
fn less_opens_the_pager_and_navigates() {
    let mut term = sample_term_at("/docs");
    let step = term.readline("less readme.md\r");
    assert!(matches!(term.app, App::Pager(_)));
    assert!(step.out.contains("first line"));
    assert_eq!(step.navs, vec!["/docs/readme.md".to_string()]);
}

#[test]
fn less_on_a_missing_file_keeps_the_shell() {
    let mut term = sample_term_at("/docs");
    let step = term.readline("less nope\r");
    assert!(matches!(term.app, App::Shell(_)));
    assert!(step.out.contains("nope: No such file or directory"));
}

#[test]
fn less_on_a_directory_is_refused() {
    let mut term = sample_term_at("/");
    let step = term.readline("less docs\r");
    assert!(step.out.contains("read error: docs Is a directory"));
}

#[test]
fn scroll_is_meaningful_only_for_the_pager() {
    let mut term = sample_term_at("/docs");
    assert_eq!(term.scroll(3), "");
    term.readline("less readme.md\r");
    let out = term.scroll(3);
    assert!(out.contains("(END)"));
}

#[test]
fn ls_lists_directories_styled() {
    let mut term = sample_term_at("/");
    let step = term.readline("ls\r");
    assert!(step.out.contains("\u{1b}[1;34mdocs\u{1b}[0m"));
    assert!(step.out.contains("\u{1b}[1;34mprojects\u{1b}[0m"));
}

#[test]
fn ls_long_format_prints_a_total_and_details() {
    let mut term = sample_term_at("/docs");
    let step = term.readline("ls -l\r");
    assert!(step.out.contains("total 22"));
    assert!(step.out.contains("-r--r--r--\t1 root\troot\t22\tJan  1 00:00 readme.md"));
}

#[test]
fn ls_human_sizes() {
    let root = dir("", "", vec![file("big.bin", "big.bin", 2048)]);
    let mut term = Term::new(root, ContentStore::new()).unwrap();
    term.init(24, 80, "/");
    let step = term.readline("ls -lh\r");
    assert!(step.out.contains("total 2.0K"));
    assert!(step.out.contains("2.0K"));
}

#[test]
fn ls_recursive_heads_each_directory_with_its_path() {
    let mut term = sample_term_at("/");
    let step = term.readline("ls -R\r");
    assert!(step.out.contains(".:"));
    assert!(step.out.contains("./docs:"));
    assert!(step.out.contains("./projects:"));
}

#[test]
fn ls_directory_flag_lists_the_entry_itself() {
    let mut term = sample_term_at("/");
    let step = term.readline("ls -d docs\r");
    assert!(step.out.contains("\u{1b}[1;34mdocs\u{1b}[0m"));
    assert!(!step.out.contains("readme.md"));
}

#[test]
fn ls_on_a_missing_path_is_refused() {
    let mut term = sample_term_at("/");
    let step = term.readline("ls nope\r");
    assert!(step.out.contains("nope: No such file or directory"));
}

#[test]
fn ls_rejects_unknown_flags_with_its_own_error() {
    let mut term = sample_term_at("/");
    let step = term.readline("ls -q\r");
    assert!(step.out.contains("ls: unexpected argument: -q"));
}

#[test]
fn ls_on_the_moved_file_resolves_via_fallback() {
    let root = dir(
        "",
        "",
        vec![dir(
            "docs",
            "docs",
            vec![dir("old", "docs/old", vec![file("gone.md", "docs/old/gone.md", 4)])],
        )],
    );
    let mut term = Term::new(root, ContentStore::new()).unwrap();
    term.init(24, 80, "/");
    let step = term.readline("ls docs/gone.md\r");
    assert!(step.out.contains("gone.md"));
}

#[test]
fn help_whoami_whereis_and_echo_answer() {
    let mut term = sample_term_at("/");
    assert!(term.readline("help\r").out.contains("list directory contents"));
    assert!(term.readline("whoami\r").out.contains("guest"));
    assert!(term.readline("whereis\r").out.contains("virtual filesystem"));
    assert!(term.readline("echo a b  c\r").out.contains("a b  c"));
}

#[test]
fn cd_to_a_missing_directory_is_refused() {
    let mut term = sample_term_at("/");
    let step = term.readline("cd nope\r");
    assert!(step.out.contains("nope: No such directory"));
    assert_eq!(term.state.path, "");
}

#[test]
fn cd_rejects_extra_arguments() {
    let mut term = sample_term_at("/");
    let step = term.readline("cd a b\r");
    assert!(step.out.contains("cd: unexpected argument: b"));
}

#[test]
fn cat_requires_a_file_operand() {
    let mut term = sample_term_at("/");
    let step = term.readline("cat\r");
    assert!(step.out.contains("cat: missing file operand"));
}

#[test]
fn less_requires_a_file_operand() {
    let mut term = sample_term_at("/");
    let step = term.readline("less\r");
    assert!(step.out.contains("less: missing file operand"));
}

#[test]
fn echo_without_message_prints_an_empty_line() {
    let mut term = sample_term_at("/");
    let step = term.readline("echo\r");
    assert!(step.out.ends_with("\n\r\n\r$ "));
}

#[test]
fn empty_line_dispatches_to_not_found() {
    let mut term = sample_term_at("/");
    let step = term.readline("\r");
    assert!(step.out.contains("command not found: , try using help"));
}

#[test]
fn before_init_nothing_reacts() {
    let root = dir("", "", vec![]);
    let mut term = Term::new(root, ContentStore::new()).unwrap();
    let step = term.readline("ls\r");
    assert_eq!(step.out, "");
    assert!(step.navs.is_empty());
}

#[test]
fn malformed_trees_are_rejected_at_construction() {
    let bad = dir("", "", vec![file("a", "wrong-url", 1)]);
    assert!(Term::new(bad, ContentStore::new()).is_none());
}

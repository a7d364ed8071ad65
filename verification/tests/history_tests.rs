use webterm::app::App;
use webterm::filesystem::{ContentStore, Entry};
use webterm::Term;

fn dir(name: &str, url: &str, entries: Vec<Entry>) -> Entry {
    Entry {
        filename: name.to_string(),
        url: url.to_string(),
        size: 0,
        modified: 0,
        is_dir: true,
        entries,
    }
}

fn sample_term() -> Term {
    let root = dir("", "", vec![dir("docs", "docs", vec![])]);
    let mut term = Term::new(root, ContentStore::new()).unwrap();
    term.init(24, 80, "/");
    term
}

fn shell_buffer(term: &Term) -> String {
    match &term.app {
        App::Shell(sh) => sh.input_buffer.iter().collect(),
        _ => panic!("shell not active"),
    }
}

#[test]
fn consecutive_duplicates_are_stored_once() {
    let mut term = sample_term();
    term.readline("ls\r");
    term.readline("ls\r");
    assert_eq!(term.state.history, vec!["ls".to_string()]);
}

#[test]
fn distinct_lines_are_both_stored() {
    let mut term = sample_term();
    term.readline("ls\r");
    term.readline("pwd\r");
    term.readline("ls\r");
    assert_eq!(
        term.state.history,
        vec!["ls".to_string(), "pwd".to_string(), "ls".to_string()]
    );
}

#[test]
fn up_arrow_with_empty_history_is_noop() {
    let mut term = sample_term();
    let x = term.state.cursor_x;
    let step = term.readline("\u{1b}[A");
    assert_eq!(step.out, "");
    assert_eq!(shell_buffer(&term), "");
    assert_eq!(term.state.cursor_x, x);
}

#[test]
fn up_recalls_the_last_line() {
    let mut term = sample_term();
    term.readline("pwd\r");
    term.readline("\u{1b}[A");
    assert_eq!(shell_buffer(&term), "pwd");
    assert_eq!(term.state.cursor_x, 5);
}

#[test]
fn up_then_down_returns_to_empty_input() {
    let mut term = sample_term();
    term.readline("pwd\r");
    term.readline("\u{1b}[A\u{1b}[B");
    assert_eq!(shell_buffer(&term), "");
    assert_eq!(term.state.cursor_x, 2);
}

#[test]
fn up_twice_walks_back_in_history() {
    let mut term = sample_term();
    term.readline("pwd\r");
    term.readline("help\r");
    term.readline("\u{1b}[A\u{1b}[A");
    assert_eq!(shell_buffer(&term), "pwd");
}

#[test]
fn history_command_lists_entries_with_indices() {
    let mut term = sample_term();
    term.readline("pwd\r");
    term.readline("history\r");
    let step = term.readline("\u{1b}[A");
    // The history command itself was recorded too.
    assert_eq!(shell_buffer(&term), "history");
    drop(step);
    let out = term.readline("\u{15}history\r").out;
    assert!(out.contains("   0 pwd"));
    assert!(out.contains("   1 history"));
}

#[test]
fn history_survives_the_pager() {
    let mut term = sample_term();
    term.readline("pwd\r");
    // A failing `less` keeps the shell; the history keeps its entry.
    term.readline("less nope\r");
    term.readline("\u{15}");
    term.readline("\u{1b}[A");
    assert_eq!(shell_buffer(&term), "less nope");
}

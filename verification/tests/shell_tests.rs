use webterm::app::App;
use webterm::filesystem::{ContentStore, Entry};
use webterm::Term;

fn file(name: &str, url: &str, size: u64) -> Entry {
    Entry {
        filename: name.to_string(),
        url: url.to_string(),
        size,
        modified: 0,
        is_dir: false,
        entries: vec![],
    }
}

fn dir(name: &str, url: &str, entries: Vec<Entry>) -> Entry {
    Entry {
        filename: name.to_string(),
        url: url.to_string(),
        size: 0,
        modified: 0,
        is_dir: true,
        entries,
    }
}

fn sample_term(height: usize, width: usize) -> Term {
    let root = dir(
        "",
        "",
        vec![
            dir("docs", "docs", vec![file("readme.md", "docs/readme.md", 5)]),
            dir("projects", "projects", vec![]),
        ],
    );
    let mut store = ContentStore::new();
    store.add("docs/readme.md".to_string(), "first line\nsecond line".to_string());
    let mut term = Term::new(root, store).unwrap();
    term.init(height, width, "/");
    term
}

fn shell_buffer(term: &Term) -> String {
    match &term.app {
        App::Shell(sh) => sh.input_buffer.iter().collect(),
        _ => panic!("shell not active"),
    }
}

#[test]
fn echo_prints_message_and_restores_cursor() {
    let mut term = sample_term(24, 80);
    let step = term.readline("echo hi\r");
    assert!(step.out.contains("hi"));
    assert!(step.out.ends_with("\n\rhi\n\r$ "));
    assert_eq!(term.state.cursor_x, 2);
    assert_eq!(shell_buffer(&term), "");
}

#[test]
fn backspace_on_empty_buffer_is_noop() {
    let mut term = sample_term(24, 80);
    let x = term.state.cursor_x;
    let step = term.readline("\u{7f}");
    assert_eq!(step.out, "");
    assert_eq!(term.state.cursor_x, x);
    assert_eq!(shell_buffer(&term), "");
}

#[test]
fn backspace_removes_character_left_of_cursor() {
    let mut term = sample_term(24, 80);
    term.readline("ab\u{7f}");
    assert_eq!(shell_buffer(&term), "a");
    assert_eq!(term.state.cursor_x, 3);
}

#[test]
fn typing_beyond_width_is_dropped() {
    let mut term = sample_term(24, 6);
    term.readline("abcdef");
    // The prompt takes two columns; the cap leaves room for three characters.
    assert_eq!(shell_buffer(&term), "abc");
}

#[test]
fn malformed_escape_sequence_is_discarded() {
    let mut term = sample_term(24, 80);
    term.readline("\u{1b}[Za");
    assert_eq!(shell_buffer(&term), "a");
}

#[test]
fn insert_mode_overwrites_in_place() {
    let mut term = sample_term(24, 80);
    // Type "ab", step left onto the "b", toggle insert, overwrite with "c".
    term.readline("ab\u{1b}[D\u{1b}[2~c");
    assert_eq!(shell_buffer(&term), "ac");
}

#[test]
fn default_mode_inserts_mid_line() {
    let mut term = sample_term(24, 80);
    term.readline("ac\u{1b}[Db");
    assert_eq!(shell_buffer(&term), "abc");
}

#[test]
fn kill_line_clears_the_buffer() {
    let mut term = sample_term(24, 80);
    term.readline("abc\u{15}");
    assert_eq!(shell_buffer(&term), "");
    assert_eq!(term.state.cursor_x, 2);
}

#[test]
fn ctrl_l_clears_screen_and_buffer() {
    let mut term = sample_term(4, 80);
    let step = term.readline("abc\u{c}");
    assert_eq!(shell_buffer(&term), "");
    assert!(step.out.ends_with("\n\n\n\n\u{1b}[A\u{1b}[A\u{1b}[A\u{1b}[A\r$ "));
    assert_eq!(term.state.cursor_y, 0);
}

#[test]
fn unknown_command_reports_not_found() {
    let mut term = sample_term(24, 80);
    let step = term.readline("frobnicate\r");
    assert!(step.out.contains("command not found: frobnicate, try using help"));
}

#[test]
fn unknown_control_characters_are_ignored() {
    let mut term = sample_term(24, 80);
    let step = term.readline("\u{1}\u{2}");
    assert_eq!(step.out, "");
    assert_eq!(shell_buffer(&term), "");
}

#[test]
fn home_and_end_move_within_line() {
    let mut term = sample_term(24, 80);
    term.readline("abc\u{1b}[H");
    assert_eq!(term.state.cursor_x, 2);
    term.readline("\u{1b}[F");
    assert_eq!(term.state.cursor_x, 5);
}

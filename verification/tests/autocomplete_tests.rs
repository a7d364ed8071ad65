use webterm::app::App;
use webterm::filesystem::{ContentStore, Entry};
use webterm::Term;

fn file(name: &str, url: &str) -> Entry {
    Entry {
        filename: name.to_string(),
        url: url.to_string(),
        size: 1,
        modified: 0,
        is_dir: false,
        entries: vec![],
    }
}

fn dir(name: &str, url: &str, entries: Vec<Entry>) -> Entry {
    Entry {
        filename: name.to_string(),
        url: url.to_string(),
        size: 0,
        modified: 0,
        is_dir: true,
        entries,
    }
}

fn sample_term() -> Term {
    let root = dir(
        "",
        "",
        vec![
            dir(
                "docs",
                "docs",
                vec![file("readme.md", "docs/readme.md"), file("recipe.md", "docs/recipe.md")],
            ),
            file("data.txt", "data.txt"),
        ],
    );
    let mut term = Term::new(root, ContentStore::new()).unwrap();
    term.init(24, 80, "/");
    term
}

fn shell_buffer(term: &Term) -> String {
    match &term.app {
        App::Shell(sh) => sh.input_buffer.iter().collect(),
        _ => panic!("shell not active"),
    }
}

#[test]
fn single_candidate_replaces_the_partial_command() {
    let mut term = sample_term();
    // Among the registered commands only `less` starts with `le`.
    term.readline("le\t");
    assert_eq!(shell_buffer(&term), "less ");
    assert_eq!(term.state.cursor_x, 7);
}

#[test]
fn multiple_candidates_list_and_extend_by_common_prefix() {
    let mut term = sample_term();
    // `l` matches `ls` and `less`; their common prefix is just `l`.
    let step = term.readline("l\t");
    assert!(step.out.contains("ls\tless") || step.out.contains("less\tls"));
    assert_eq!(shell_buffer(&term), "l");
}

#[test]
fn no_candidate_is_a_noop() {
    let mut term = sample_term();
    term.readline("zz");
    let step = term.readline("\t");
    assert_eq!(step.out, "");
    assert_eq!(shell_buffer(&term), "zz");
}

#[test]
fn candidate_listing_matches_the_registry() {
    let mut term = sample_term();
    term.readline("c");
    let opts = term.autocomplete();
    assert_eq!(opts, vec!["clear".to_string(), "cd".to_string(), "cat".to_string()]);
}

#[test]
fn file_completion_single_candidate_appends_suffix() {
    let mut term = sample_term();
    // Only data.txt starts with "da"; a completed file gets a space.
    term.readline("cat da\t");
    assert_eq!(shell_buffer(&term), "cat data.txt ");
}

#[test]
fn file_completion_directory_gets_a_slash() {
    let mut term = sample_term();
    term.readline("cd do\t");
    assert_eq!(shell_buffer(&term), "cd docs/");
}

#[test]
fn file_completion_multiple_candidates_extend_by_common_prefix() {
    let mut term = sample_term();
    let step = term.readline("cat docs/re\t");
    assert!(step.out.contains("readme.md\trecipe.md"));
    // The shared prefix beyond "re" is "re" -> extended to "cat docs/re".
    assert_eq!(shell_buffer(&term), "cat docs/re");
}

#[test]
fn file_completion_in_subdirectory_path() {
    let mut term = sample_term();
    term.readline("cat docs/rea\t");
    assert_eq!(shell_buffer(&term), "cat docs/readme.md ");
}

#[test]
fn file_candidates_from_the_api() {
    let mut term = sample_term();
    term.readline("cat d");
    let opts = term.autocomplete();
    assert_eq!(opts, vec!["docs/".to_string(), "data.txt".to_string()]);
}

#[test]
fn no_candidates_for_unknown_command_argument() {
    let mut term = sample_term();
    term.readline("frob d");
    let opts = term.autocomplete();
    assert!(opts.is_empty());
}

#[test]
fn no_candidates_past_the_first_argument() {
    let mut term = sample_term();
    term.readline("cat a b");
    let opts = term.autocomplete();
    assert!(opts.is_empty());
}

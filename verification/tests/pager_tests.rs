use webterm::less::Less;
use webterm::termstate::TermState;

fn hundred_lines() -> Vec<String> {
    (0..100).map(|i| format!("line{}", i)).collect()
}

fn pager_with(lines: Vec<String>) -> Less {
    Less { ansi_buffer: vec![], lines, line: 0, ansi: false }
}

fn state_with_height(height: usize) -> TermState {
    let mut st = TermState::new();
    st.height = height;
    st.width = 80;
    st
}

const END_MARKER: &str = "\u{1b}[48;2;234;255;229;30m(END)\u{1b}[0m";

#[test]
fn render_far_past_the_end_clamps_to_the_bound() {
    let mut pager = pager_with(hundred_lines());
    let st = state_with_height(10);
    let out = pager.less_from(&st, 1000);
    assert_eq!(pager.line, 90);
    assert!(out.contains(END_MARKER));
    let again = pager.less_from(&st, 90);
    assert_eq!(pager.line, 90);
    assert!(again.contains(END_MARKER));
    assert_eq!(out, again);
}

#[test]
fn render_from_the_top_shows_no_end_marker() {
    let mut pager = pager_with(hundred_lines());
    let st = state_with_height(10);
    let out = pager.less_from(&st, 0);
    assert_eq!(pager.line, 0);
    assert!(!out.contains("(END)"));
    assert!(out.contains("line0"));
    assert!(out.contains("line8"));
    assert!(!out.contains("line9"));
    assert!(out.ends_with("\n\r:"));
}

#[test]
fn short_file_pads_above_to_pin_the_footer() {
    let mut pager = pager_with(vec!["only".to_string()]);
    let st = state_with_height(4);
    let out = pager.less_from(&st, 0);
    // Three blank rows, the single line, then the end marker.
    assert_eq!(out, format!("\n\r\n\r\n\ronly\n\r{}", END_MARKER));
}

#[test]
fn arrows_move_one_line_and_pages_move_a_screen() {
    let mut pager = pager_with(hundred_lines());
    let st = state_with_height(10);
    pager.less_from(&st, 0);
    pager.readchar(&st, '\u{1b}');
    pager.readchar(&st, '[');
    pager.readchar(&st, 'B');
    assert_eq!(pager.line, 1);
    pager.readchar(&st, '\u{1b}');
    pager.readchar(&st, '[');
    pager.readchar(&st, '6');
    pager.readchar(&st, '~');
    assert_eq!(pager.line, 11);
    pager.readchar(&st, '\u{1b}');
    pager.readchar(&st, '[');
    pager.readchar(&st, 'A');
    assert_eq!(pager.line, 10);
    pager.readchar(&st, '\u{1b}');
    pager.readchar(&st, '[');
    pager.readchar(&st, '5');
    pager.readchar(&st, '~');
    assert_eq!(pager.line, 0);
}

#[test]
fn g_and_shift_g_jump_to_the_ends() {
    let mut pager = pager_with(hundred_lines());
    let st = state_with_height(10);
    let bottom = pager.readchar(&st, 'G');
    assert_eq!(pager.line, 90);
    assert!(bottom.out.contains(END_MARKER));
    let top = pager.readchar(&st, 'g');
    assert_eq!(pager.line, 0);
    assert!(top.out.contains("line0"));
}

#[test]
fn quit_reports_a_navigation_target() {
    let mut pager = pager_with(hundred_lines());
    let mut st = state_with_height(10);
    st.path = "docs".to_string();
    let step = pager.readchar(&st, 'q');
    assert!(step.quit);
    assert_eq!(step.nav.as_deref(), Some("/docs"));
}

#[test]
fn other_characters_are_ignored_by_the_pager() {
    let mut pager = pager_with(hundred_lines());
    let st = state_with_height(10);
    let step = pager.readchar(&st, 'x');
    assert!(!step.quit);
    assert_eq!(step.out, "");
    assert_eq!(pager.line, 0);
}

#[test]
fn scroll_moves_by_a_signed_delta_and_clamps() {
    let mut pager = pager_with(hundred_lines());
    let st = state_with_height(10);
    pager.scroll(&st, 5);
    assert_eq!(pager.line, 5);
    pager.scroll(&st, -2);
    assert_eq!(pager.line, 3);
    pager.scroll(&st, -100);
    assert_eq!(pager.line, 0);
    pager.scroll(&st, 1000);
    assert_eq!(pager.line, 90);
}

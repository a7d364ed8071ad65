//! The pager: scroll-position math over a loaded text buffer, its own
//! escape-sequence handling, and the rendered viewport with a pinned
//! footer.

use vstd::prelude::*;

use crate::ansi::{classify_escape, matches_key, is_strict_esc_prefix, EscMatch, Key};
use crate::filesystem::{joined_path, join_path, ContentStore, Entry};
use crate::render::{
    append_join_lines, append_repeat, end_marker_styled, join_lines, nl, nl_str, paint_end_marker,
    repeat_seq,
};
use crate::termstate::TermState;
use crate::utils::{lines_of, push_char, resolve_path_files, sat_add, sat_sub, text_lines};

verus! {

/// The pager over one loaded text.  `lines` is the text split at newlines,
/// immutable for the pager's lifetime; `line` is the index of the first
/// visible line.
pub struct Less {
    pub ansi_buffer: Vec<char>,
    pub lines: Vec<String>,
    pub line: usize,
    pub ansi: bool,
}

/// What one pager keystroke produced: output text, an optional navigation
/// target for the host, and whether the pager asked to quit back to the
/// shell.
pub struct PagerStep {
    pub out: String,
    pub nav: Option<String>,
    pub quit: bool,
}

/// The highest admissible top line: scrolling stops when the last screen
/// of text is visible.
pub open spec fn pager_bound(total: nat, height: nat) -> nat {
    if total > height {
        (total - height) as nat
    } else {
        0
    }
}

/// A requested top line clamped into `[0, pager_bound]`.
pub open spec fn pager_clamp(t: int, total: nat, height: nat) -> nat {
    let b = pager_bound(total, height);
    if t < 0 {
        0
    } else if t < b {
        t as nat
    } else {
        b
    }
}

/// One past the last line of the visible window: the viewport keeps its
/// last row for the footer, so at most `height - 1` lines show.
pub open spec fn win_end(start: nat, total: nat, height: nat) -> nat {
    if height == 0 {
        start
    } else if start + height - 1 < total {
        (start + height - 1) as nat
    } else {
        total
    }
}

/// The rendered viewport: leading blank lines pad a short window so the
/// footer stays pinned to the bottom; the footer is the highlighted end
/// marker exactly when the window cannot scroll further.
pub open spec fn render_seq(lines: Seq<Seq<char>>, height: nat, start: nat) -> Seq<char> {
    let total = lines.len();
    let m = win_end(start, total, height);
    let window = lines.subrange(start as int, m as int);
    let padding = if height >= window.len() {
        (height - window.len()) as nat
    } else {
        0
    };
    let marker = if start == pager_bound(total, height) {
        end_marker_styled("(END)"@)
    } else {
        ":"@
    };
    repeat_seq(nl(), padding) + join_lines(window, nl()) + nl() + marker
}

/// Whether a key scrolls the pager.
pub open spec fn is_nav_key(k: Key) -> bool {
    match k {
        Key::Up | Key::Down | Key::PageUp | Key::PageDown | Key::Home | Key::End => true,
        _ => false,
    }
}

/// The top line a navigation key asks for, before clamping.
pub open spec fn nav_target(k: Key, line: nat, height: nat, total: nat) -> int {
    match k {
        Key::Up => line - 1,
        Key::Down => line + 1int,
        Key::PageUp => line - height,
        Key::PageDown => line + height as int,
        Key::Home => 0int,
        Key::End => total as int,
        _ => line as int,
    }
}

/// What one pager keystroke leaves behind, for every input character.
pub open spec fn pager_readchar_post(
    opg: Less,
    npg: Less,
    st: TermState,
    r: PagerStep,
    input: char,
) -> bool {
    let total = opg.lines.deep_view().len();
    let h = st.height as nat;
    &&& npg.lines == opg.lines
    &&& if opg.ansi {
                    let buf = opg.ansi_buffer@.push(input);
                    &&& r.nav is None
                    &&& r.quit == false
                    &&& match matches_key(buf) {
                        Option::Some(k) => {
                            &&& npg.ansi == false
                            &&& npg.ansi_buffer@.len() == 0
                            &&& if is_nav_key(k) {
                                &&& npg.line == pager_clamp(
                                    nav_target(k, opg.line as nat, h, total),
                                    total,
                                    h,
                                )
                                &&& r.out@ == render_seq(
                                    opg.lines.deep_view(),
                                    h,
                                    npg.line as nat,
                                )
                            } else {
                                npg.line == opg.line && r.out@.len() == 0
                            }
                        },
                        Option::None => if is_strict_esc_prefix(buf) {
                            &&& npg.ansi == true
                            &&& npg.ansi_buffer@ == buf
                            &&& npg.line == opg.line
                            &&& r.out@.len() == 0
                        } else {
                            &&& npg.ansi == false
                            &&& npg.ansi_buffer@.len() == 0
                            &&& npg.line == opg.line
                            &&& r.out@.len() == 0
                        },
                    }
                } else if input == '\u{1b}' {
                    &&& npg.ansi == true
                    &&& npg.ansi_buffer@ == seq![input]
                    &&& npg.line == opg.line
                    &&& r.out@.len() == 0
                    &&& r.nav is None
                    &&& r.quit == false
                } else if input == 'q' {
                    &&& npg == opg
                    &&& r.out@.len() == 0
                    &&& r.nav matches Option::Some(nv) && nv@ == seq!['/'] + st.path@
                    &&& r.quit == true
                } else if input == 'g' {
                    &&& npg.line == pager_clamp(0, total, h)
                    &&& npg.ansi == opg.ansi
                    &&& r.out@ == render_seq(
                        opg.lines.deep_view(),
                        h,
                        npg.line as nat,
                    )
                    &&& r.nav is None
                    &&& r.quit == false
                } else if input == 'G' {
                    &&& npg.line == pager_bound(total, h)
                    &&& npg.ansi == opg.ansi
                    &&& r.out@ == render_seq(
                        opg.lines.deep_view(),
                        h,
                        npg.line as nat,
                    )
                    &&& r.nav is None
                    &&& r.quit == false
                } else {
                    &&& npg == opg
                    &&& r.out@.len() == 0
                    &&& r.nav is None
                    &&& r.quit == false
                }
}

impl Less {
    /// A fresh pager with no text.
    pub fn new() -> (r: Less)
        ensures
            r.ansi_buffer@.len() == 0,
            r.lines@.len() == 0,
            r.line == 0,
            r.ansi == false,
    {
        Less { ansi_buffer: Vec::new(), lines: Vec::new(), line: 0, ansi: false }
    }

    fn ansi_clear(&mut self)
        ensures
            final(self).ansi_buffer@.len() == 0,
            final(self).ansi == false,
            final(self).lines == old(self).lines,
            final(self).line == old(self).line,
    {
        self.ansi_buffer.clear();
        self.ansi = false;
    }

    /// Render the viewport from line `n`, clamped into range; the clamped
    /// position becomes the new top line.
    pub fn less_from(&mut self, state: &TermState, n: usize) -> (r: String)
        ensures
            final(self).line == pager_clamp(
                n as int,
                old(self).lines.deep_view().len(),
                state.height as nat,
            ),
            final(self).lines == old(self).lines,
            final(self).ansi == old(self).ansi,
            final(self).ansi_buffer == old(self).ansi_buffer,
            r@ == render_seq(
                old(self).lines.deep_view(),
                state.height as nat,
                final(self).line as nat,
            ),
    {
        let ghost dv = self.lines.deep_view();
        let total = self.lines.len();
        let height = state.height;
        proof {
            assert(dv.len() == self.lines@.len());
        }
        let bound: usize = if total > height {
            total - height
        } else {
            0
        };
        let start: usize = if n < bound {
            n
        } else {
            bound
        };
        self.line = start;
        let m: usize = if height == 0 {
            start
        } else {
            let k = start + (height - 1);
            if k < total {
                k
            } else {
                total
            }
        };
        let pad: usize = height - (m - start);
        let mut out = String::new();
        let nls = nl_str();
        append_repeat(&mut out, nls.as_str(), pad);
        append_join_lines(&mut out, &self.lines, start, m, nls.as_str());
        out.append(nls.as_str());
        if start == bound {
            let em = paint_end_marker("(END)");
            out.append(em.as_str());
        } else {
            out.append(":");
        }
        proof {
            let window = dv.subrange(start as int, m as int);
            assert(pad as nat == (height as nat) - window.len() || height as nat == 0);
            assert(out@ =~= render_seq(dv, state.height as nat, start as nat));
        }
        out
    }

    /// Load the file at `path_str`, resolved against the caller's current
    /// directory, and render its first screen.  On success the result
    /// carries the rendered output and the file's canonical path for the
    /// host's navigation; every failure reports the path the caller gave.
    pub fn less(&mut self, root: &Entry, store: &ContentStore, state: &TermState, path_str: &str)
        -> (r: Result<(String, String), String>)
        ensures
            ({
                let joined = joined_path(state.path@, path_str@);
                let found = if crate::utils::resolved_segs(joined).len() == 0 {
                    Option::<Entry>::None
                } else {
                    root.lookup(joined)
                };
                match found {
                    Option::None => r matches Err(m) && m@ == path_str@
                        + ": No such file or directory"@ && *final(self) == *old(self),
                    Option::Some(e) => {
                        if e.is_dir {
                            r matches Err(m) && m@ == "read error: "@ + path_str@
                                + " Is a directory"@ && *final(self) == *old(self)
                        } else {
                            match store.content_of(e.url@) {
                                Option::None => r matches Err(m) && m@ == "read error: "@
                                    + path_str@ && *final(self) == *old(self),
                                Option::Some(text) => r matches Ok(ok) && {
                                    let lines = text_lines(text);
                                    &&& final(self).lines.deep_view() == lines
                                    &&& final(self).line == 0
                                    &&& final(self).ansi == old(self).ansi
                                    &&& final(self).ansi_buffer == old(self).ansi_buffer
                                    &&& ok.1@ == seq!['/'] + e.url@
                                    &&& ok.0@ == render_seq(lines, state.height as nat, 0)
                                },
                            }
                        }
                    },
                }
            }),
    {
        let path = join_path(state.path.as_str(), path_str);
        let segs = resolve_path_files(path.as_str());
        if segs.len() == 0 {
            let mut m = path_str.to_owned();
            m.append(": No such file or directory");
            return Err(m);
        }
        let change = root.get_file(path.as_str());
        match change {
            Err(_) => {
                let mut m = path_str.to_owned();
                m.append(": No such file or directory");
                Err(m)
            },
            Ok(file) => {
                if file.is_dir {
                    let mut m = "read error: ".to_owned();
                    m.append(path_str);
                    m.append(" Is a directory");
                    return Err(m);
                }
                match file.load(store) {
                    Err(_) => {
                        let mut m = "read error: ".to_owned();
                        m.append(path_str);
                        Err(m)
                    },
                    Ok(content) => {
                        self.lines = lines_of(content.as_str());
                        let mut nav = String::new();
                        push_char(&mut nav, '/');
                        nav.append(file.url.as_str());
                        proof {
                            assert(nav@ =~= seq!['/'] + file.url@);
                        }
                        let out = self.less_from(state, 0);
                        Ok((out, nav))
                    },
                }
            },
        }
    }

    /// One keystroke: recognized escape sequences scroll the viewport,
    /// `g`/`G` jump to the ends, `q` quits back to the shell, and anything
    /// else is ignored.

    pub fn readchar(&mut self, state: &TermState, input: char) -> (r: PagerStep)
        ensures
            pager_readchar_post(*old(self), *final(self), *state, r, input),
    {
        let ghost total_g = self.lines.deep_view().len();
        let total = self.lines.len();
        proof {
            assert(total_g == self.lines@.len());
        }
        if self.ansi {
            self.ansi_buffer.push(input);
            let m = classify_escape(&self.ansi_buffer);
            match m {
                EscMatch::Match(k) => {
                    self.ansi_clear();
                    let line = self.line;
                    let height = state.height;
                    let out = match k {
                        Key::Up => {
                            let t = sat_sub(line, 1);
                            self.less_from(state, t)
                        },
                        Key::Down => {
                            let t = sat_add(line, 1);
                            self.less_from(state, t)
                        },
                        Key::PageUp => {
                            let t = sat_sub(line, height);
                            self.less_from(state, t)
                        },
                        Key::PageDown => {
                            let t = sat_add(line, height);
                            self.less_from(state, t)
                        },
                        Key::Home => self.less_from(state, 0),
                        Key::End => {
                            let t = total;
                            self.less_from(state, t)
                        },
                        Key::Left | Key::Right | Key::Insert | Key::Function => String::new(),
                    };
                    PagerStep { out, nav: Option::None, quit: false }
                },
                EscMatch::Prefix => PagerStep { out: String::new(), nav: Option::None, quit: false },
                EscMatch::Invalid => {
                    self.ansi_clear();
                    PagerStep { out: String::new(), nav: Option::None, quit: false }
                },
            }
        } else if input == '\u{1b}' {
            self.ansi = true;
            self.ansi_buffer.clear();
            self.ansi_buffer.push(input);
            proof {
                assert(self.ansi_buffer@ =~= seq![input]);
            }
            PagerStep { out: String::new(), nav: Option::None, quit: false }
        } else if input == 'q' {
            let mut nav = String::new();
            push_char(&mut nav, '/');
            nav.append(state.path.as_str());
            proof {
                assert(nav@ =~= seq!['/'] + state.path@);
            }
            PagerStep { out: String::new(), nav: Option::Some(nav), quit: true }
        } else if input == 'g' {
            let out = self.less_from(state, 0);
            PagerStep { out, nav: Option::None, quit: false }
        } else if input == 'G' {
            let out = self.less_from(state, total);
            PagerStep { out, nav: Option::None, quit: false }
        } else {
            PagerStep { out: String::new(), nav: Option::None, quit: false }
        }
    }

    /// Scroll by a signed number of lines, clamped into range, and render
    /// the viewport at the new position.
    pub fn scroll(&mut self, state: &TermState, delta: i32) -> (r: String)
        ensures
            final(self).line == pager_clamp(
                old(self).line + delta as int,
                old(self).lines.deep_view().len(),
                state.height as nat,
            ),
            final(self).lines == old(self).lines,
            final(self).ansi == old(self).ansi,
            r@ == render_seq(
                old(self).lines.deep_view(),
                state.height as nat,
                final(self).line as nat,
            ),
    {
        let ghost total_g = self.lines.deep_view().len();
        let total = self.lines.len();
        proof {
            assert(total_g == self.lines@.len());
        }
        let t: usize = if delta >= 0 {
            sat_add(self.line, delta as usize)
        } else {
            let m64: i64 = -(delta as i64);
            sat_sub(self.line, m64 as usize)
        };
        self.less_from(state, t)
    }
}

} // verus!

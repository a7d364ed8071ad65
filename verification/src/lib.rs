//! An in-process emulation of an interactive line-oriented terminal session.
//!
//! The crate consumes raw input characters one at a time (including
//! multi-byte escape sequences) and produces the output bytes a terminal
//! emulator needs to render the effect: prompts, echoes, cursor moves,
//! redraws and screen clears.  A session owns a read-only virtual
//! filesystem, a command registry, a shell with line editing, history and
//! tab completion, and a pager for viewing files.

pub mod app;
pub mod ansi;
pub mod cmds;
pub mod filesystem;
pub mod less;
pub mod render;
pub mod shell;
pub mod termstate;
pub mod utils;

use vstd::prelude::*;

use crate::app::{App, EmptyApp};
use crate::cmds::{clear_post, command_names, CmdOut, Registry};
use crate::filesystem::{joined_path, ContentStore, Entry};
use crate::less::{pager_readchar_post, render_seq, Less, PagerStep};
use crate::render::{clear_screen_seq, prompt, prompt_len};
use crate::shell::{readchar_post, shell_wf, Shell, ShellStep};
use crate::termstate::TermState;
use crate::utils::{last_index_of, resolved_segs, text_lines};

verus! {

/// What feeding input to the session produced: the output text to render,
/// and the navigation targets to hand to the host, in order.
pub struct TermStep {
    pub out: String,
    pub navs: Vec<String>,
}

/// What forwarding one character to the session leaves behind: the fixed
/// parts of the session are untouched, and the active application steps as
/// its own contract describes, handing over to the application it returns.
pub open spec fn term_readchar_post(o: Term, n: Term, r: TermStep, input: char) -> bool {
    &&& n.root == o.root
    &&& n.store == o.store
    &&& n.reg == o.reg
    &&& n.init == o.init
    &&& match o.app {
        App::Empty(_) => n == o && r.out@.len() == 0 && r.navs@.len() == 0,
        App::Shell(sh) => exists|nsh: Shell, step: ShellStep|
            {
                &&& #[trigger] readchar_post(
                    o.reg,
                    o.root,
                    o.store,
                    sh,
                    nsh,
                    o.state,
                    n.state,
                    step,
                    input,
                )
                &&& r.out == step.out
                &&& match step.nav {
                    Option::Some(nv) => r.navs@ == seq![nv],
                    Option::None => r.navs@.len() == 0,
                }
                &&& n.app == (match step.pager {
                    Option::Some(pg) => App::Pager(pg),
                    Option::None => App::Shell(nsh),
                })
            },
        App::Pager(pg) => exists|npg: Less, ps: PagerStep|
            {
                &&& #[trigger] pager_readchar_post(pg, npg, o.state, ps, input)
                &&& match ps.nav {
                    Option::Some(nv) => r.navs@ == seq![nv],
                    Option::None => r.navs@.len() == 0,
                }
                &&& if ps.quit {
                    &&& n.app matches App::Shell(nsh2) && nsh2.input_buffer@.len() == 0
                        && nsh2.ansi == false && nsh2.history_index as nat == (
                    if o.state.history@.len() > 0 {
                        (o.state.history@.len() - 1) as nat
                    } else {
                        0
                    })
                    &&& clear_post(
                        o.state,
                        n.state,
                        CmdOut { out: r.out, nav: Option::None, pager: Option::None },
                    )
                } else {
                    &&& n.app == App::Pager(npg)
                    &&& n.state == o.state
                    &&& r.out == ps.out
                }
            },
    }
}

/// The outputs of the steps, concatenated in order.
pub open spec fn concat_outs(steps: Seq<TermStep>) -> Seq<char>
    decreases steps.len(),
{
    if steps.len() == 0 {
        Seq::<char>::empty()
    } else {
        concat_outs(steps.drop_last()) + steps.last().out@
    }
}

/// The navigation targets of the steps, concatenated in order.
pub open spec fn concat_navs(steps: Seq<TermStep>) -> Seq<String>
    decreases steps.len(),
{
    if steps.len() == 0 {
        Seq::<String>::empty()
    } else {
        concat_navs(steps.drop_last()) + steps.last().navs@
    }
}

/// A whole input fed one character at a time: there is a chain of
/// intermediate sessions, one `term_readchar_post` step per character in
/// order, whose outputs and navigation targets concatenate to the final
/// ones.
pub open spec fn term_run(
    o: Term,
    n: Term,
    input: Seq<char>,
    out: Seq<char>,
    navs: Seq<String>,
) -> bool {
    exists|states: Seq<Term>, steps: Seq<TermStep>|
        {
            &&& #[trigger] states.len() == input.len() + 1
            &&& #[trigger] steps.len() == input.len()
            &&& states[0] == o
            &&& states[input.len() as int] == n
            &&& (forall|i: int|
                0 <= i < input.len() ==> term_readchar_post(
                    states[i],
                    states[i + 1],
                    #[trigger] steps[i],
                    input[i],
                ))
            &&& out == concat_outs(steps)
            &&& navs == concat_navs(steps)
        }
}

/// One terminal session: the active application, the shared state, the
/// virtual filesystem, the content store and the command registry.
pub struct Term {
    pub app: App,
    pub state: TermState,
    pub root: Entry,
    pub store: ContentStore,
    pub reg: Registry,
    pub init: bool,
}

impl Term {
    /// While the shell is active, the session state satisfies its
    /// invariant.
    pub open spec fn wf(self) -> bool {
        match self.app {
            App::Shell(sh) => shell_wf(sh, self.state),
            _ => true,
        }
    }

    /// A fresh session over a well-formed tree rooted at the empty path;
    /// a malformed tree is rejected.
    pub fn new(root: Entry, store: ContentStore) -> (r: Option<Term>)
        ensures
            match r {
                Option::Some(t) => {
                    &&& root.wf()
                    &&& t.root == root
                    &&& t.store == store
                    &&& t.app is Empty
                    &&& t.init == false
                    &&& t.reg.names() == command_names()
                    &&& t.state.path@.len() == 0
                    &&& t.state.history@.len() == 0
                    &&& t.wf()
                },
                Option::None => !root.wf(),
            },
    {
        if !root.check_wf() {
            return Option::None;
        }
        Option::Some(
            Term {
                app: App::Empty(EmptyApp::new()),
                state: TermState::new(),
                root,
                store,
                reg: crate::cmds::cmds_init(),
                init: false,
            },
        )
    }

    /// Set the dimensions and install the first application: a pager
    /// pre-loaded with the file the starting location names, or a shell in
    /// the starting directory (or wherever the session was, if the
    /// location does not resolve) behind a full clear and a fresh prompt.
    pub fn init(&mut self, height: usize, width: usize, location: &str) -> (r: String)
        ensures
            final(self).init == true,
            final(self).root == old(self).root,
            final(self).store == old(self).store,
            final(self).reg == old(self).reg,
            final(self).state.height == height,
            final(self).state.width == width,
            final(self).state.history == old(self).state.history,
            final(self).wf(),
            ({
                let loc = if location@.len() > 0 && location@[0] == '/' {
                    location@.skip(1)
                } else {
                    location@
                };
                let shell_installed = {
                    &&& final(self).app is Shell
                    &&& r@ == clear_screen_seq(height as nat) + prompt()
                    &&& final(self).state.cursor_x == prompt_len()
                    &&& final(self).state.cursor_y == 0
                };
                match old(self).root.lookup(loc) {
                    Option::None => shell_installed && final(self).state.path == old(
                        self,
                    ).state.path,
                    Option::Some(e) => if e.is_dir {
                        shell_installed && final(self).state.path@ == e.url@
                    } else {
                        let parent = loc + seq!['/', '.', '.'];
                        match old(self).root.lookup(parent) {
                            Option::None => shell_installed && final(self).state.path == old(
                                self,
                            ).state.path,
                            Option::Some(p) => {
                                let fname = match last_index_of(loc, '/') {
                                    Option::Some(i) => loc.skip(i + 1 as int),
                                    Option::None => loc,
                                };
                                let joined = joined_path(p.url@, fname);
                                let found = if resolved_segs(joined).len() == 0 {
                                    Option::<Entry>::None
                                } else {
                                    old(self).root.lookup(joined)
                                };
                                &&& final(self).state.path@ == p.url@
                                &&& match found {
                                    Option::Some(f) => if !f.is_dir && old(self).store.content_of(
                                        f.url@,
                                    ) is Some {
                                        let text = old(self).store.content_of(f.url@)->Some_0;
                                        &&& final(self).app matches App::Pager(pg)
                                            && pg.lines.deep_view() == text_lines(text)
                                            && pg.line == 0
                                        &&& r@ == render_seq(text_lines(text), height as nat, 0)
                                    } else {
                                        shell_installed
                                    },
                                    Option::None => shell_installed,
                                }
                            },
                        }
                    },
                }
            }),
    {
        self.init = true;
        let loc: String = if location.unicode_len() > 0 && location.get_char(0) == '/' {
            let n = location.unicode_len();
            let cut = location.substring_char(1, n);
            proof {
                assert(cut@ =~= location@.skip(1));
            }
            cut.to_owned()
        } else {
            location.to_owned()
        };
        self.state.width = width;
        self.state.height = height;
        match self.root.get_file(loc.as_str()) {
            Ok(e) => {
                if e.is_dir {
                    self.state.path = e.url.clone();
                } else {
                    let mut parent_path = loc.clone();
                    parent_path.append("/..");
                    proof {
                        reveal_strlit("/..");
                        assert(("/..")@ =~= seq!['/', '.', '.']);
                        assert(parent_path@ =~= loc@ + seq!['/', '.', '.']);
                    }
                    match self.root.get_file(parent_path.as_str()) {
                        Ok(p) => {
                            self.state.path = p.url.clone();
                            let n = loc.as_str().unicode_len();
                            let fname: String = match crate::utils::rfind_char(loc.as_str(), '/') {
                                Option::Some(i) => {
                                    let f = loc.as_str().substring_char(i + 1, n);
                                    proof {
                                        assert(f@ =~= loc@.skip(i + 1 as int));
                                    }
                                    f.to_owned()
                                },
                                Option::None => loc.clone(),
                            };
                            let mut pager = Less::new();
                            let opened = pager.less(
                                &self.root,
                                &self.store,
                                &self.state,
                                fname.as_str(),
                            );
                            match opened {
                                Ok((out, _nav)) => {
                                    self.app = App::Pager(pager);
                                    return out;
                                },
                                Err(_) => {},
                            }
                        },
                        Err(_) => {},
                    }
                }
            },
            Err(_) => {},
        }
        let sh = Shell::new(&self.state);
        self.app = App::Shell(sh);
        Shell::clear(&mut self.state)
    }

    /// Forward one character to the active application, installing the
    /// application it hands back, if any.  Before initialization nothing
    /// reacts.
    pub fn readchar(&mut self, input: char) -> (r: TermStep)
        requires
            old(self).wf(),
        ensures
            final(self).wf(),
            term_readchar_post(*old(self), *final(self), r, input),
    {
        let mut navs: Vec<String> = Vec::new();
        match &mut self.app {
            App::Empty(_) => TermStep { out: String::new(), navs },
            App::Shell(sh) => {
                let step = sh.readchar(&self.reg, &self.root, &self.store, &mut self.state, input);
                let ghost nsh = *sh;
                let ghost step_g = step;
                let ShellStep { out, nav, pager } = step;
                match nav {
                    Option::Some(nv) => navs.push(nv),
                    Option::None => {},
                }
                match pager {
                    Option::Some(pg) => {
                        self.app = App::Pager(pg);
                    },
                    Option::None => {},
                }
                let r = TermStep { out, navs };
                proof {
                    assert(readchar_post(
                        old(self).reg,
                        old(self).root,
                        old(self).store,
                        old(self).app->Shell_0,
                        nsh,
                        old(self).state,
                        self.state,
                        step_g,
                        input,
                    ));
                }
                r
            },
            App::Pager(pg) => {
                let ps = pg.readchar(&self.state, input);
                let ghost npg = *pg;
                let ghost ps_g = ps;
                let PagerStep { out, nav, quit } = ps;
                match nav {
                    Option::Some(nv) => navs.push(nv),
                    Option::None => {},
                }
                if quit {
                    let cleared = Shell::clear(&mut self.state);
                    let nsh2 = Shell::new(&self.state);
                    self.app = App::Shell(nsh2);
                    let r = TermStep { out: cleared, navs };
                    proof {
                        assert(pager_readchar_post(
                            old(self).app->Pager_0,
                            npg,
                            old(self).state,
                            ps_g,
                            input,
                        ));
                    }
                    r
                } else {
                    let r = TermStep { out, navs };
                    proof {
                        assert(pager_readchar_post(
                            old(self).app->Pager_0,
                            npg,
                            old(self).state,
                            ps_g,
                            input,
                        ));
                    }
                    r
                }
            },
        }
    }

    /// Feed a string of characters, one at a time, to the active
    /// application; the output is the concatenation of the per-character
    /// outputs and the navigation targets accumulate in order.
    pub fn readline(&mut self, input: &str) -> (r: TermStep)
        requires
            old(self).wf(),
        ensures
            final(self).wf(),
            term_run(*old(self), *final(self), input@, r.out@, r.navs@),
    {
        let n = input.unicode_len();
        let mut out = String::new();
        let mut navs: Vec<String> = Vec::new();
        let mut i: usize = 0;
        let ghost mut states: Seq<Term> = seq![*self];
        let ghost mut steps: Seq<TermStep> = Seq::empty();
        while i < n
            invariant
                i <= n,
                n == input@.len(),
                self.wf(),
                states.len() == i + 1,
                steps.len() == i,
                states[0] == *old(self),
                states[i as int] == *self,
                forall|j: int|
                    0 <= j < i ==> term_readchar_post(
                        states[j],
                        states[j + 1],
                        #[trigger] steps[j],
                        input@[j],
                    ),
                out@ == concat_outs(steps),
                navs@ == concat_navs(steps),
            decreases n - i,
        {
            let c = input.get_char(i);
            let step = self.readchar(c);
            let ghost step_g = step;
            out.append(step.out.as_str());
            let mut ns = step.navs;
            navs.append(&mut ns);
            proof {
                let prev_steps = steps;
                states = states.push(*self);
                steps = steps.push(step_g);
                assert(steps.drop_last() =~= prev_steps);
                assert(out@ == concat_outs(steps));
                assert(navs@ == concat_navs(steps));
            }
            i += 1;
        }
        proof {
            assert(states.len() == input@.len() + 1);
            assert(steps.len() == input@.len());
        }
        TermStep { out, navs }
    }

    /// Forward a scroll request to the active application; only the pager
    /// reacts, clamping the new top line into range.
    pub fn scroll(&mut self, lines: i32) -> (r: String)
        requires
            old(self).wf(),
        ensures
            final(self).wf(),
            final(self).root == old(self).root,
            final(self).store == old(self).store,
            final(self).reg == old(self).reg,
            final(self).init == old(self).init,
            final(self).state == old(self).state,
            match old(self).app {
                App::Pager(pg) => final(self).app matches App::Pager(npg) && {
                    &&& npg.line as nat == crate::less::pager_clamp(
                        pg.line + lines as int,
                        pg.lines.deep_view().len(),
                        old(self).state.height as nat,
                    )
                    &&& npg.lines == pg.lines
                    &&& r@ == render_seq(
                        pg.lines.deep_view(),
                        old(self).state.height as nat,
                        npg.line as nat,
                    )
                },
                _ => *final(self) == *old(self) && r@.len() == 0,
            },
    {
        match &mut self.app {
            App::Pager(pg) => pg.scroll(&self.state, lines),
            App::Shell(_) => String::new(),
            App::Empty(_) => String::new(),
        }
    }

    /// The current completion candidates, without mutating the input.
    pub fn autocomplete(&self) -> (r: Vec<String>)
        ensures
            match self.app {
                App::Shell(sh) => r.deep_view() == crate::shell::options_spec(
                    self.reg,
                    self.root,
                    self.state.path@,
                    sh.input_buffer@,
                    true,
                ),
                _ => r@.len() == 0,
            },
    {
        match &self.app {
            App::Shell(sh) => sh.get_autocomplete_options(&self.reg, &self.root, &self.state, true),
            _ => Vec::new(),
        }
    }
}

} // verus!

//! The shell: line editing, history recall, tab completion and dispatch of
//! completed lines to the command registry.

use vstd::prelude::*;

use crate::ansi::{classify_escape, esc_seq, matches_key, is_strict_esc_prefix, EscMatch, Key};
use crate::cmds::{dispatch_post, run_command, sat_y, CmdOut, MobileType, Registry};
use crate::filesystem::{joined_path, join_path, ContentStore, Entry};
use crate::less::Less;
use crate::render::{erase_one, prompt, prompt_len, repeat_seq, solo_seq};
use crate::termstate::TermState;
use crate::utils::{
    chars_to_string, is_prefix_of, last_index_of, lcp_of, push_char, sat_add, str_to_chars,
    trim_spaces_end,
};

verus! {

/// The line-editing application: the in-progress command line, the escape
/// buffer, the history cursor, and the two mode switches.
pub struct Shell {
    pub input_buffer: Vec<char>,
    pub ansi_buffer: Vec<char>,
    pub history_index: usize,
    pub ansi: bool,
    pub insert: bool,
}

/// What one shell keystroke produced: output text, an optional navigation
/// target, and an optional switch to the pager.
pub struct ShellStep {
    pub out: String,
    pub nav: Option<String>,
    pub pager: Option<Less>,
}

/// The cursor always sits inside the prompt-led line, and the history
/// cursor inside the history.
pub open spec fn shell_wf(sh: Shell, st: TermState) -> bool {
    &&& prompt_len() <= st.cursor_x <= prompt_len() + sh.input_buffer@.len()
    &&& sh.history_index <= st.history@.len()
}

/// The bytes that erase the visible line and return the cursor to the
/// prompt: step right to the end, then erase every cell.
pub open spec fn clearline_seq(len: nat, x: nat) -> Seq<char> {
    let right = if len + prompt_len() >= x {
        (len + prompt_len() - x) as nat
    } else {
        0
    };
    repeat_seq(esc_seq(Key::Right), right) + repeat_seq(erase_one(), len)
}

/// The history cursor after one step up.
pub open spec fn up_index(idx: nat) -> nat {
    if idx > 0 {
        (idx - 1) as nat
    } else {
        idx
    }
}

/// The line buffer after one step up: the recalled entry, or the buffer
/// unchanged at the top (and with an empty history stepping up is a no-op).
pub open spec fn up_buffer(h: Seq<Seq<char>>, idx: nat, buf: Seq<char>) -> Seq<char> {
    if idx > 0 {
        h[idx - 1]
    } else {
        buf
    }
}

/// The history cursor after one step down; stepping down always clears the
/// line back to the empty input.
pub open spec fn down_index(idx: nat, hlen: nat) -> nat {
    if idx < hlen {
        (idx + 1) as nat
    } else {
        idx
    }
}

/// Stepping up and then down from a fresh prompt returns to the original
/// empty input: the history cursor is back at the end of the history and
/// the line buffer is empty again (stepping down always leaves it empty).
pub proof fn lemma_up_then_down_restores_input(h: Seq<Seq<char>>)
    ensures
        down_index(up_index(h.len()), h.len()) == h.len(),
{
}

/// A submitted line is recorded only if the history is empty or the line
/// differs from the last entry: no consecutive duplicates.
pub open spec fn history_push(h: Seq<Seq<char>>, cmd: Seq<char>) -> Seq<Seq<char>> {
    if h.len() == 0 || h.last() != cmd {
        h.push(cmd)
    } else {
        h
    }
}

impl Shell {
    /// A fresh shell over the session's history: the history cursor points
    /// at the last entry (or at zero for an empty history).
    pub fn new(state: &TermState) -> (r: Shell)
        ensures
            r.input_buffer@.len() == 0,
            r.ansi_buffer@.len() == 0,
            r.history_index as nat == if state.history@.len() > 0 {
                (state.history@.len() - 1) as nat
            } else {
                0
            },
            r.ansi == false,
            r.insert == false,
    {
        let hlen = state.history.len();
        Shell {
            input_buffer: Vec::new(),
            ansi_buffer: Vec::new(),
            history_index: if hlen > 0 {
                hlen - 1
            } else {
                0
            },
            ansi: false,
            insert: false,
        }
    }

    /// A full clear with a fresh prompt, as the `clear` command does it.
    pub fn clear(state: &mut TermState) -> (r: String)
        ensures
            crate::cmds::clear_post(
                *old(state),
                *final(state),
                CmdOut { out: r, nav: Option::None, pager: Option::None },
            ),
    {
        let c = crate::cmds::clear(state, "");
        c.out
    }

    /// Erase the visible line and return the cursor to the prompt.
    fn clearline(&self, state: &mut TermState) -> (r: String)
        requires
            shell_wf(*self, *old(state)),
        ensures
            r@ == clearline_seq(self.input_buffer@.len(), old(state).cursor_x as nat),
            final(state).cursor_x == prompt_len(),
            final(state).cursor_y == old(state).cursor_y,
            final(state).path == old(state).path,
            final(state).height == old(state).height,
            final(state).width == old(state).width,
            final(state).history == old(state).history,
    {
        let len = self.input_buffer.len();
        let right_n = len - (state.cursor_x - 2);
        let mut out = String::new();
        let right = crate::render::esc_str(Key::Right);
        crate::render::append_repeat(&mut out, right.as_str(), right_n);
        let left = crate::render::esc_str(Key::Left);
        let mut erase = left.clone();
        push_char(&mut erase, ' ');
        erase.append(left.as_str());
        proof {
            assert(erase@ =~= erase_one());
        }
        crate::render::append_repeat(&mut out, erase.as_str(), len);
        state.cursor_x = 2;
        proof {
            assert(out@ =~= clearline_seq(self.input_buffer@.len(), old(state).cursor_x as nat));
        }
        out
    }

    /// Record the line in the history (skipping consecutive duplicates),
    /// move the history cursor past the end, and dispatch the line, with
    /// trailing spaces trimmed, to the command it names.
    fn command(&mut self, root: &Entry, store: &ContentStore, state: &mut TermState, cmdline: &str)
        -> (r: ShellStep)
        ensures
            ({
                let newh = history_push(old(state).history.deep_view(), cmdline@);
                &&& final(state).history.deep_view() == newh
                &&& final(self).history_index as nat == newh.len()
                &&& final(self).input_buffer == old(self).input_buffer
                &&& final(self).ansi_buffer == old(self).ansi_buffer
                &&& final(self).ansi == old(self).ansi
                &&& final(self).insert == old(self).insert
                &&& exists|mid: TermState|
                    {
                        &&& mid.path == old(state).path
                        &&& mid.cursor_x == old(state).cursor_x
                        &&& mid.cursor_y == old(state).cursor_y
                        &&& mid.height == old(state).height
                        &&& mid.width == old(state).width
                        &&& mid.history.deep_view() == newh
                        &&& #[trigger] dispatch_post(
                            *root,
                            *store,
                            mid,
                            *final(state),
                            CmdOut { out: r.out, nav: r.nav, pager: r.pager },
                            trim_spaces_end(cmdline@),
                        )
                    }
            }),
    {
        let ghost oldh = state.history.deep_view();
        let hlen = state.history.len();
        let push_it: bool = if hlen == 0 {
            true
        } else {
            !crate::utils::str_eq(state.history[hlen - 1].as_str(), cmdline)
        };
        if push_it {
            let ghost prevdv = state.history.deep_view();
            state.history.push(cmdline.to_owned());
            proof {
                assert(state.history.deep_view() =~= prevdv.push(cmdline@));
                assert(oldh.len() > 0 ==> oldh.last() == oldh[oldh.len() - 1]);
            }
        }
        proof {
            assert(state.history.deep_view() == history_push(oldh, cmdline@));
        }
        self.history_index = state.history.len();
        let ghost mid = *state;
        let trimmed = crate::utils::trim_end_spaces(cmdline);
        let c = run_command(root, store, state, trimmed.as_str());
        let r = ShellStep { out: c.out, nav: c.nav, pager: c.pager };
        proof {
            assert(dispatch_post(
                *root,
                *store,
                mid,
                *state,
                CmdOut { out: r.out, nav: r.nav, pager: r.pager },
                trim_spaces_end(cmdline@),
            ));
        }
        r
    }
}

// ---------------------------------------------------------------------------
// Completion candidates.
// ---------------------------------------------------------------------------

/// The registered names the partial command word is a prefix of, in
/// registration order; on a mobile client only commands offered there.
pub open spec fn cmd_name_matches(cmds: Seq<crate::cmds::CmdInfo>, input: Seq<char>, mobile: bool)
    -> Seq<Seq<char>>
    decreases cmds.len(),
{
    if cmds.len() == 0 {
        Seq::<Seq<char>>::empty()
    } else {
        let rest = cmd_name_matches(cmds.drop_last(), input, mobile);
        let c = cmds.last();
        if is_prefix_of(input, c.name@) && (!mobile || !(c.mobile is NotMobile)) {
            rest.push(c.name@)
        } else {
            rest
        }
    }
}

/// The first registered command carrying `name`, if any.
pub open spec fn reg_find(cmds: Seq<crate::cmds::CmdInfo>, name: Seq<char>) -> Option<
    crate::cmds::CmdInfo,
>
    decreases cmds.len(),
{
    if cmds.len() == 0 {
        Option::None
    } else if cmds[0].name@ == name {
        Option::Some(cmds[0])
    } else {
        reg_find(cmds.skip(1), name)
    }
}

/// The entries whose name the partial file name is a prefix of, in order.
pub open spec fn entry_matches(es: Seq<Entry>, fname: Seq<char>) -> Seq<Entry>
    decreases es.len(),
{
    if es.len() == 0 {
        Seq::<Entry>::empty()
    } else {
        let rest = entry_matches(es.drop_last(), fname);
        if is_prefix_of(fname, es.last().filename@) {
            rest.push(es.last())
        } else {
            rest
        }
    }
}

/// The candidates as shown: directory names carry a trailing slash.
pub open spec fn entry_display(es: Seq<Entry>) -> Seq<Seq<char>>
    decreases es.len(),
{
    if es.len() == 0 {
        Seq::<Seq<char>>::empty()
    } else {
        entry_display(es.drop_last()).push(
            if es.last().is_dir {
                es.last().filename@ + seq!['/']
            } else {
                es.last().filename@
            },
        )
    }
}

/// The plain names of the entries, in order.
pub open spec fn entry_names(es: Seq<Entry>) -> Seq<Seq<char>>
    decreases es.len(),
{
    if es.len() == 0 {
        Seq::<Seq<char>>::empty()
    } else {
        entry_names(es.drop_last()).push(es.last().filename@)
    }
}

/// The directory to complete file names in, and the partial name typed so
/// far: the text after the last space is split at its last slash; an
/// absolute part stands alone, a relative one is joined onto the current
/// directory.  No completion happens when the base does not resolve to a
/// directory.
pub open spec fn file_comp_env(root: Entry, cwd: Seq<char>, input: Seq<char>) -> Option<
    (Entry, Seq<char>),
> {
    match last_index_of(input, ' ') {
        Option::None => Option::None,
        Option::Some(wsi) => {
            let search = input.skip(wsi + 1 as int);
            let cpath = match last_index_of(search, '/') {
                Option::Some(si) => search.subrange(0, si as int),
                Option::None => Seq::<char>::empty(),
            };
            let fname = match last_index_of(search, '/') {
                Option::Some(si) => search.skip(si + 1 as int),
                Option::None => search,
            };
            let base = if search.len() > 0 && search[0] == '/' {
                cpath
            } else if search.contains('/') {
                joined_path(cwd, cpath)
            } else {
                cwd
            };
            match root.lookup(base) {
                Option::None => Option::None,
                Option::Some(d) => if d.is_dir {
                    Option::Some((d, fname))
                } else {
                    Option::None
                },
            }
        },
    }
}

/// The completion candidates for the current line: registered command
/// names while the line has no space, otherwise file names in the implied
/// directory (directories shown with a trailing slash), but only for a
/// recognized command with at most one argument so far.
pub open spec fn options_spec(
    reg: Registry,
    root: Entry,
    cwd: Seq<char>,
    input: Seq<char>,
    mobile: bool,
) -> Seq<Seq<char>> {
    if !input.contains(' ') {
        cmd_name_matches(reg.cmds@, input, mobile)
    } else {
        match reg_find(reg.cmds@, crate::cmds::first_token(input)) {
            Option::None => Seq::<Seq<char>>::empty(),
            Option::Some(ci) => if mobile && ci.mobile is Mobile {
                Seq::<Seq<char>>::empty()
            } else if crate::utils::split_on(input, ' ').len() > 2 {
                Seq::<Seq<char>>::empty()
            } else {
                match file_comp_env(root, cwd, input) {
                    Option::None => Seq::<Seq<char>>::empty(),
                    Option::Some(df) => entry_display(entry_matches(df.0.entries@, df.1)),
                }
            },
        }
    }
}

/// Find the directory to complete in, with the partial name typed so far.
fn file_comp_dir<'a>(root: &'a Entry, state: &TermState, input: &str) -> (r: Option<
    (&'a Entry, String),
>)
    ensures
        match r {
            Option::Some(df) => file_comp_env(*root, state.path@, input@) == Option::Some(
                (*df.0, df.1@),
            ),
            Option::None => file_comp_env(*root, state.path@, input@) is None,
        },
{
    let n = input.unicode_len();
    let wsi = match crate::utils::rfind_char(input, ' ') {
        Option::Some(i) => i,
        Option::None => {
            return Option::None;
        },
    };
    let search = input.substring_char(wsi + 1, n);
    proof {
        assert(search@ =~= input@.skip(wsi + 1 as int));
    }
    let sn = search.unicode_len();
    let cpath: String;
    let fname: String;
    match crate::utils::rfind_char(search, '/') {
        Option::Some(si) => {
            cpath = search.substring_char(0, si).to_owned();
            fname = search.substring_char(si + 1, sn).to_owned();
            proof {
                assert(cpath@ =~= search@.subrange(0, si as int));
                assert(fname@ =~= search@.skip(si + 1 as int));
            }
        },
        Option::None => {
            cpath = String::new();
            fname = search.to_owned();
        },
    }
    let base: String = if sn > 0 && search.get_char(0) == '/' {
        cpath
    } else if crate::utils::str_contains_char(search, '/') {
        join_path(state.path.as_str(), cpath.as_str())
    } else {
        state.path.clone()
    };
    match root.get_file(base.as_str()) {
        Err(_) => Option::None,
        Ok(d) => {
            if d.is_dir {
                Option::Some((d, fname))
            } else {
                Option::None
            }
        },
    }
}

impl Shell {
    /// The completion candidates for the current line, as `options_spec`
    /// describes them.
    #[verifier::loop_isolation(false)]
    pub fn get_autocomplete_options(
        &self,
        reg: &Registry,
        root: &Entry,
        state: &TermState,
        mobile: bool,
    ) -> (r: Vec<String>)
        ensures
            r.deep_view() == options_spec(
                *reg,
                *root,
                state.path@,
                self.input_buffer@,
                mobile,
            ),
    {
        let input = chars_to_string(&self.input_buffer);
        let mut out: Vec<String> = Vec::new();
        if !crate::utils::str_contains_char(input.as_str(), ' ') {
            let ghost cs = reg.cmds@;
            let n = reg.cmds.len();
            let mut i: usize = 0;
            proof {
                assert(cs.subrange(0, 0) =~= Seq::<crate::cmds::CmdInfo>::empty());
                assert(out.deep_view() =~= cmd_name_matches(cs.subrange(0, 0), input@, mobile));
            }
            while i < n
                invariant
                    i <= n,
                    out.deep_view() == cmd_name_matches(cs.subrange(0, i as int), input@, mobile),
                decreases n - i,
            {
                proof {
                    let p1 = cs.subrange(0, i + 1 as int);
                    assert(p1.drop_last() =~= cs.subrange(0, i as int));
                    assert(p1.last() == cs[i as int]);
                }
                let c = &reg.cmds[i];
                let keep = crate::utils::str_starts_with(c.name.as_str(), input.as_str()) && (
                !mobile || !(matches!(c.mobile, MobileType::NotMobile)));
                if keep {
                    let ghost prev = out.deep_view();
                    out.push(c.name.clone());
                    proof {
                        assert(out.deep_view() =~= prev.push(cs[i as int].name@));
                    }
                }
                i += 1;
            }
            proof {
                assert(cs.subrange(0, n as int) =~= cs);
            }
            return out;
        }
        let token: &str = match crate::utils::find_char(input.as_str(), ' ') {
            Option::Some(i) => {
                let t = input.as_str().substring_char(0, i);
                proof {
                    assert(t@ =~= crate::cmds::first_token(input@));
                }
                t
            },
            Option::None => input.as_str(),
        };
        let mut found: Option<MobileType> = Option::None;
        let ghost cs = reg.cmds@;
        let n = reg.cmds.len();
        let mut i: usize = 0;
        proof {
            assert(cs.skip(0) =~= cs);
        }
        while i < n
            invariant
                i <= n,
                found is None,
                reg_find(cs, token@) == reg_find(cs.skip(i as int), token@),
            decreases n - i,
        {
            proof {
                let pre = cs.skip(i as int);
                assert(pre[0] == cs[i as int]);
                assert(pre.skip(1) =~= cs.skip(i + 1 as int));
            }
            if crate::utils::str_eq(reg.cmds[i].name.as_str(), token) {
                found = Option::Some(reg.cmds[i].mobile);
                break ;
            }
            i += 1;
        }
        let tag = match found {
            Option::None => {
                proof {
                    assert(cs.skip(i as int) =~= Seq::<crate::cmds::CmdInfo>::empty());
                    assert(out.deep_view() =~= Seq::<Seq<char>>::empty());
                }
                return out;
            },
            Option::Some(t) => t,
        };
        if mobile && matches!(tag, MobileType::Mobile) {
            proof {
                assert(out.deep_view() =~= Seq::<Seq<char>>::empty());
            }
            return out;
        }
        let toks = crate::utils::split_str(input.as_str(), ' ');
        if toks.len() > 2 {
            proof {
                assert(out.deep_view() =~= Seq::<Seq<char>>::empty());
            }
            return out;
        }
        match file_comp_dir(root, state, input.as_str()) {
            Option::None => {
                proof {
                    assert(out.deep_view() =~= Seq::<Seq<char>>::empty());
                }
                out
            },
            Option::Some((d, fname)) => {
                let ghost es = d.entries@;
                let m = d.entries.len();
                let mut j: usize = 0;
                proof {
                    assert(es.subrange(0, 0) =~= Seq::<Entry>::empty());
                    assert(out.deep_view() =~= entry_display(
                        entry_matches(es.subrange(0, 0), fname@),
                    ));
                }
                while j < m
                    invariant
                        j <= m,
                        out.deep_view() == entry_display(
                            entry_matches(es.subrange(0, j as int), fname@),
                        ),
                    decreases m - j,
                {
                    proof {
                        let p1 = es.subrange(0, j + 1 as int);
                        assert(p1.drop_last() =~= es.subrange(0, j as int));
                        assert(p1.last() == es[j as int]);
                    }
                    let e = &d.entries[j];
                    if crate::utils::str_starts_with(e.filename.as_str(), fname.as_str()) {
                        let ghost prevm = entry_matches(es.subrange(0, j as int), fname@);
                        let ghost prev = out.deep_view();
                        let shown: String;
                        if e.is_dir {
                            let mut s = e.filename.clone();
                            push_char(&mut s, '/');
                            shown = s;
                        } else {
                            shown = e.filename.clone();
                        }
                        proof {
                            if es[j as int].is_dir {
                                assert(shown@ =~= es[j as int].filename@ + seq!['/']);
                            }
                        }
                        out.push(shown);
                        proof {
                            let m1 = entry_matches(es.subrange(0, j + 1 as int), fname@);
                            assert(m1 == prevm.push(es[j as int]));
                            assert(m1.drop_last() =~= prevm);
                            assert(out.deep_view() =~= prev.push(
                                if es[j as int].is_dir {
                                    es[j as int].filename@ + seq!['/']
                                } else {
                                    es[j as int].filename@
                                },
                            ));
                            assert(out.deep_view() =~= entry_display(m1));
                        }
                    }
                    j += 1;
                }
                proof {
                    assert(es.subrange(0, m as int) =~= es);
                }
                out
            },
        }
    }
}

/// A buffer extended by what the common prefix adds beyond the text
/// already typed.
pub open spec fn extend_by(buf: Seq<char>, l: Seq<char>, typed: Seq<char>) -> Seq<char> {
    buf + if is_prefix_of(typed, l) {
        l.skip(typed.len() as int)
    } else {
        Seq::<char>::empty()
    }
}

/// What one press of Tab leaves behind.  With no space in the line the
/// command names are completed; otherwise file names in the implied
/// directory.  A single candidate replaces the partial word in place;
/// several candidates are listed on their own line and the input grows by
/// their longest common prefix; none is a no-op.
pub open spec fn tab_post(
    reg: Registry,
    root: Entry,
    osh: Shell,
    nsh: Shell,
    ost: TermState,
    nst: TermState,
    out: Seq<char>,
) -> bool {
    let input = osh.input_buffer@;
    &&& nsh.ansi == osh.ansi
    &&& nsh.ansi_buffer == osh.ansi_buffer
    &&& nsh.history_index == osh.history_index
    &&& nsh.insert == osh.insert
    &&& nst.path == ost.path
    &&& nst.height == ost.height
    &&& nst.width == ost.width
    &&& nst.history == ost.history
    &&& if !input.contains(' ') {
        let cands = cmd_name_matches(reg.cmds@, input, false);
        if cands.len() == 0 {
            &&& nsh.input_buffer == osh.input_buffer
            &&& nst.cursor_x == ost.cursor_x
            &&& nst.cursor_y == ost.cursor_y
            &&& out.len() == 0
        } else if cands.len() == 1 {
            let cmd = cands[0] + seq![' '];
            &&& nsh.input_buffer@ == cmd
            &&& out == clearline_seq(input.len(), ost.cursor_x as nat) + cmd
            &&& nst.cursor_x as nat == sat_y(cmd.len(), 2)
            &&& nst.cursor_y == ost.cursor_y
        } else {
            let newbuf = extend_by(input, lcp_of(cands), input);
            &&& nsh.input_buffer@ == newbuf
            &&& out == solo_seq(crate::render::join_lines(cands, seq!['\t'])) + newbuf
            &&& nst.cursor_x as nat == sat_y(newbuf.len(), 2)
            &&& nst.cursor_y as nat == sat_y(ost.cursor_y as nat, 2)
        }
    } else {
        match file_comp_env(root, ost.path@, input) {
            Option::None => {
                &&& nsh.input_buffer == osh.input_buffer
                &&& nst.cursor_x == ost.cursor_x
                &&& nst.cursor_y == ost.cursor_y
                &&& out.len() == 0
            },
            Option::Some(df) => {
                let ms = entry_matches(df.0.entries@, df.1);
                if ms.len() == 0 {
                    &&& nsh.input_buffer == osh.input_buffer
                    &&& nst.cursor_x == ost.cursor_x
                    &&& nst.cursor_y == ost.cursor_y
                    &&& out.len() == 0
                } else if ms.len() == 1 {
                    let e = ms[0];
                    let full = e.filename@ + if e.is_dir {
                        seq!['/']
                    } else {
                        seq![' ']
                    };
                    &&& nsh.input_buffer@ == input.subrange(
                        0,
                        input.len() - df.1.len(),
                    ) + full
                    &&& out == repeat_seq(erase_one(), df.1.len()) + full
                    &&& nst.cursor_x as nat == sat_y(
                        ost.cursor_x as nat,
                        (full.len() - df.1.len()) as nat,
                    )
                    &&& nst.cursor_y == ost.cursor_y
                } else {
                    let newbuf = extend_by(input, lcp_of(entry_names(ms)), df.1);
                    &&& nsh.input_buffer@ == newbuf
                    &&& out == solo_seq(
                        crate::render::join_lines(entry_display(ms), seq!['\t']),
                    ) + newbuf
                    &&& nst.cursor_x as nat == sat_y(newbuf.len(), 2)
                    &&& nst.cursor_y as nat == sat_y(ost.cursor_y as nat, 2)
                }
            },
        }
    }
}

impl Shell {
    /// Complete the current line in place, as `tab_post` describes.
    #[verifier::loop_isolation(false)]
    #[verifier::rlimit(100)]
    fn autocomplete(&mut self, reg: &Registry, root: &Entry, state: &mut TermState) -> (r: String)
        requires
            shell_wf(*old(self), *old(state)),
        ensures
            tab_post(*reg, *root, *old(self), *final(self), *old(state), *final(state), r@),
            shell_wf(*final(self), *final(state)),
    {
        let ghost input = self.input_buffer@;
        let inputstr = chars_to_string(&self.input_buffer);
        if !crate::utils::str_contains_char(inputstr.as_str(), ' ') {
            let ghost cs = reg.cmds@;
            let n = reg.cmds.len();
            let mut cands: Vec<String> = Vec::new();
            let mut i: usize = 0;
            proof {
                assert(cs.subrange(0, 0) =~= Seq::<crate::cmds::CmdInfo>::empty());
                assert(cands.deep_view() =~= cmd_name_matches(cs.subrange(0, 0), input, false));
            }
            while i < n
                invariant
                    i <= n,
                    cands.deep_view() == cmd_name_matches(cs.subrange(0, i as int), input, false),
                decreases n - i,
            {
                proof {
                    let p1 = cs.subrange(0, i + 1 as int);
                    assert(p1.drop_last() =~= cs.subrange(0, i as int));
                    assert(p1.last() == cs[i as int]);
                }
                if crate::utils::str_starts_with(reg.cmds[i].name.as_str(), inputstr.as_str()) {
                    let ghost prev = cands.deep_view();
                    cands.push(reg.cmds[i].name.clone());
                    proof {
                        assert(cands.deep_view() =~= prev.push(cs[i as int].name@));
                    }
                }
                i += 1;
            }
            proof {
                assert(cs.subrange(0, n as int) =~= cs);
            }
            let ghost spec_cands = cmd_name_matches(cs, input, false);
            if cands.len() == 0 {
                return String::new();
            }
            if cands.len() == 1 {
                let mut cmd = cands[0].clone();
                push_char(&mut cmd, ' ');
                proof {
                    assert(cands.deep_view()[0] == cands@[0]@);
                    assert(cmd@ =~= spec_cands[0] + seq![' ']);
                }
                let mut out = self.clearline(state);
                out.append(cmd.as_str());
                let cl = cmd.as_str().unicode_len();
                state.cursor_x = sat_add(cl, 2);
                self.input_buffer = str_to_chars(cmd.as_str());
                return out;
            }
            let joined = crate::render::append_tab_joined(&cands);
            let lcp = crate::utils::longest_common_prefix(&cands);
            if crate::utils::str_starts_with(lcp.as_str(), inputstr.as_str()) {
                let ln = lcp.as_str().unicode_len();
                let bn = inputstr.as_str().unicode_len();
                let tail = lcp.as_str().substring_char(bn, ln);
                let tail_chars = str_to_chars(tail);
                let mut tc = tail_chars;
                self.input_buffer.append(&mut tc);
                proof {
                    assert(tail@ =~= lcp_of(spec_cands).skip(input.len() as int));
                    assert(self.input_buffer@ == extend_by(input, lcp_of(spec_cands), input));
                }
            } else {
                proof {
                    assert(self.input_buffer@ =~= extend_by(input, lcp_of(spec_cands), input));
                }
            }
            let newstr = chars_to_string(&self.input_buffer);
            let mut out = String::new();
            crate::render::append_solo(&mut out, joined.as_str());
            out.append(newstr.as_str());
            state.cursor_x = sat_add(self.input_buffer.len(), 2);
            state.cursor_y = sat_add(state.cursor_y, 2);
            return out;
        }
        match file_comp_dir(root, &*state, inputstr.as_str()) {
            Option::None => String::new(),
            Option::Some((d, fname)) => {
                let ghost es = d.entries@;
                let m = d.entries.len();
                let mut names: Vec<String> = Vec::new();
                let mut display: Vec<String> = Vec::new();
                let mut first: Option<(String, bool)> = Option::None;
                let mut j: usize = 0;
                proof {
                    assert(es.subrange(0, 0) =~= Seq::<Entry>::empty());
                    assert(names.deep_view() =~= entry_names(
                        entry_matches(es.subrange(0, 0), fname@),
                    ));
                    assert(display.deep_view() =~= entry_display(
                        entry_matches(es.subrange(0, 0), fname@),
                    ));
                }
                while j < m
                    invariant
                        j <= m,
                        names.deep_view() == entry_names(
                            entry_matches(es.subrange(0, j as int), fname@),
                        ),
                        display.deep_view() == entry_display(
                            entry_matches(es.subrange(0, j as int), fname@),
                        ),
                        names@.len() == entry_matches(es.subrange(0, j as int), fname@).len(),
                        match first {
                            Option::Some(p) => {
                                let msj = entry_matches(es.subrange(0, j as int), fname@);
                                &&& msj.len() > 0
                                &&& p.0@ == msj[0].filename@
                                &&& p.1 == msj[0].is_dir
                                &&& is_prefix_of(fname@, p.0@)
                            },
                            Option::None => entry_matches(es.subrange(0, j as int), fname@).len()
                                == 0,
                        },
                    decreases m - j,
                {
                    proof {
                        let p1 = es.subrange(0, j + 1 as int);
                        assert(p1.drop_last() =~= es.subrange(0, j as int));
                        assert(p1.last() == es[j as int]);
                    }
                    let e = &d.entries[j];
                    if crate::utils::str_starts_with(e.filename.as_str(), fname.as_str()) {
                        let ghost prevm = entry_matches(es.subrange(0, j as int), fname@);
                        let ghost prevn = names.deep_view();
                        let ghost prevd = display.deep_view();
                        names.push(e.filename.clone());
                        let shown: String;
                        if e.is_dir {
                            let mut s = e.filename.clone();
                            push_char(&mut s, '/');
                            shown = s;
                            proof {
                                assert(shown@ =~= es[j as int].filename@ + seq!['/']);
                            }
                        } else {
                            shown = e.filename.clone();
                        }
                        display.push(shown);
                        if first.is_none() {
                            first = Option::Some((e.filename.clone(), e.is_dir));
                        }
                        proof {
                            let m1 = entry_matches(es.subrange(0, j + 1 as int), fname@);
                            assert(m1 == prevm.push(es[j as int]));
                            assert(m1.drop_last() =~= prevm);
                            assert(names.deep_view() =~= prevn.push(es[j as int].filename@));
                            assert(names.deep_view() =~= entry_names(m1));
                            assert(display.deep_view() =~= prevd.push(
                                if es[j as int].is_dir {
                                    es[j as int].filename@ + seq!['/']
                                } else {
                                    es[j as int].filename@
                                },
                            ));
                            assert(display.deep_view() =~= entry_display(m1));
                            if prevm.len() > 0 {
                                assert(m1[0] == prevm[0]);
                            }
                        }
                    }
                    j += 1;
                }
                proof {
                    assert(es.subrange(0, m as int) =~= es);
                }
                let ghost ms = entry_matches(es, fname@);
                let fp: (String, bool) = match first {
                    Option::None => {
                        return String::new();
                    },
                    Option::Some(p) => p,
                };
                let flen = fname.as_str().unicode_len();
                let blen = self.input_buffer.len();
                proof {
                    crate::utils::lemma_last_index_bounds(input, ' ');
                    crate::utils::lemma_last_index_bounds(
                        input.skip(
                            (last_index_of(input, ' ')->Some_0 + 1) as int,
                        ),
                        '/',
                    );
                    assert(fname@.len() <= input.len());
                }
                if names.len() == 1 {
                    let mut full = fp.0.clone();
                    if fp.1 {
                        push_char(&mut full, '/');
                    } else {
                        push_char(&mut full, ' ');
                    }
                    proof {
                        assert(full@ =~= ms[0].filename@ + if ms[0].is_dir {
                            seq!['/']
                        } else {
                            seq![' ']
                        });
                    }
                    let mut out = String::new();
                    let left = crate::render::esc_str(Key::Left);
                    let mut erase = left.clone();
                    push_char(&mut erase, ' ');
                    erase.append(left.as_str());
                    proof {
                        assert(erase@ =~= erase_one());
                    }
                    crate::render::append_repeat(&mut out, erase.as_str(), flen);
                    out.append(full.as_str());
                    self.input_buffer.truncate(blen - flen);
                    let full_chars = str_to_chars(full.as_str());
                    let mut fc = full_chars;
                    self.input_buffer.append(&mut fc);
                    proof {
                        assert(self.input_buffer@ =~= input.subrange(
                            0,
                            input.len() - fname@.len(),
                        ) + full@);
                    }
                    let fl = full.as_str().unicode_len();
                    state.cursor_x = sat_add(state.cursor_x, fl - flen);
                    return out;
                }
                let joined = crate::render::append_tab_joined(&display);
                let lcp = crate::utils::longest_common_prefix(&names);
                if crate::utils::str_starts_with(lcp.as_str(), fname.as_str()) {
                    let ln = lcp.as_str().unicode_len();
                    let tail = lcp.as_str().substring_char(flen, ln);
                    let tail_chars = str_to_chars(tail);
                    let mut tc = tail_chars;
                    self.input_buffer.append(&mut tc);
                    proof {
                        assert(tail@ =~= lcp_of(entry_names(ms)).skip(fname@.len() as int));
                        assert(self.input_buffer@ == extend_by(
                            input,
                            lcp_of(entry_names(ms)),
                            fname@,
                        ));
                    }
                } else {
                    proof {
                        assert(self.input_buffer@ =~= extend_by(
                            input,
                            lcp_of(entry_names(ms)),
                            fname@,
                        ));
                    }
                }
                let newstr = chars_to_string(&self.input_buffer);
                let mut out = String::new();
                crate::render::append_solo(&mut out, joined.as_str());
                out.append(newstr.as_str());
                state.cursor_x = sat_add(self.input_buffer.len(), 2);
                state.cursor_y = sat_add(state.cursor_y, 2);
                out
            },
        }
    }
}

// ---------------------------------------------------------------------------
// Keys and keystrokes.
// ---------------------------------------------------------------------------

/// What one recognized control key leaves behind.  Up and Down walk the
/// history; Left, Right, Home and End move the cursor inside the line;
/// Insert toggles overwrite mode; the rest are recognized and dropped.
pub open spec fn key_post(
    osh: Shell,
    nsh: Shell,
    ost: TermState,
    nst: TermState,
    out: Seq<char>,
    k: Key,
) -> bool {
    let len = osh.input_buffer@.len();
    let x0 = ost.cursor_x as nat;
    &&& nst.path == ost.path
    &&& nst.height == ost.height
    &&& nst.width == ost.width
    &&& nst.history == ost.history
    &&& nst.cursor_y == ost.cursor_y
    &&& nsh.insert == (if k is Insert {
        !osh.insert
    } else {
        osh.insert
    })
    &&& match k {
        Key::Up => {
            &&& nsh.history_index as nat == up_index(osh.history_index as nat)
            &&& nsh.input_buffer@ == up_buffer(
                ost.history.deep_view(),
                osh.history_index as nat,
                osh.input_buffer@,
            )
            &&& if osh.history_index > 0 {
                let e = ost.history.deep_view()[osh.history_index - 1];
                &&& out == clearline_seq(len, x0) + e
                &&& nst.cursor_x as nat == sat_y(e.len(), 2)
            } else {
                out.len() == 0 && nst.cursor_x == ost.cursor_x
            }
        },
        Key::Down => {
            &&& nsh.history_index as nat == down_index(
                osh.history_index as nat,
                ost.history@.len(),
            )
            &&& nsh.input_buffer@.len() == 0
            &&& out == clearline_seq(len, x0)
            &&& nst.cursor_x == prompt_len()
        },
        Key::Right => {
            &&& nsh.history_index == osh.history_index
            &&& nsh.input_buffer == osh.input_buffer
            &&& if x0 < prompt_len() + len {
                out == esc_seq(Key::Right) && nst.cursor_x as nat == sat_y(x0, 1)
            } else {
                out.len() == 0 && nst.cursor_x == ost.cursor_x
            }
        },
        Key::Left => {
            &&& nsh.history_index == osh.history_index
            &&& nsh.input_buffer == osh.input_buffer
            &&& if x0 > prompt_len() {
                out == esc_seq(Key::Left) && nst.cursor_x as nat == x0 - 1
            } else {
                out.len() == 0 && nst.cursor_x == ost.cursor_x
            }
        },
        Key::Home => {
            &&& nsh.history_index == osh.history_index
            &&& nsh.input_buffer == osh.input_buffer
            &&& out == repeat_seq(esc_seq(Key::Left), (x0 - prompt_len()) as nat)
            &&& nst.cursor_x == prompt_len()
        },
        Key::End => {
            &&& nsh.history_index == osh.history_index
            &&& nsh.input_buffer == osh.input_buffer
            &&& out == repeat_seq(esc_seq(Key::Right), (len - (x0 - prompt_len())) as nat)
            &&& nst.cursor_x as nat == sat_y(len, 2)
        },
        _ => {
            &&& nsh.history_index == osh.history_index
            &&& nsh.input_buffer == osh.input_buffer
            &&& out.len() == 0
            &&& nst.cursor_x == ost.cursor_x
        },
    }
}

/// What one shell keystroke leaves behind, for every input character.
pub open spec fn readchar_post(
    reg: Registry,
    root: Entry,
    store: ContentStore,
    osh: Shell,
    nsh: Shell,
    ost: TermState,
    nst: TermState,
    r: ShellStep,
    input: char,
) -> bool {
    let r_out = r.out@;
    let r_nav = r.nav;
    let r_pager = r.pager;
    let len = osh.input_buffer@.len();
    let x0 = ost.cursor_x as nat;
    if osh.ansi {
        let buf = osh.ansi_buffer@.push(input);
        &&& r_nav is None
        &&& r_pager is None
        &&& nst.path == ost.path && nst.height == ost.height && nst.width == ost.width
            && nst.history == ost.history
        &&& match matches_key(buf) {
            Option::Some(k) => {
                &&& nsh.ansi == false
                &&& nsh.ansi_buffer@.len() == 0
                &&& key_post(osh, nsh, ost, nst, r_out, k)
            },
            Option::None => {
                &&& nsh.input_buffer == osh.input_buffer
                &&& nsh.history_index == osh.history_index
                &&& nsh.insert == osh.insert
                &&& nst.cursor_x == ost.cursor_x && nst.cursor_y == ost.cursor_y
                &&& r_out.len() == 0
                &&& if is_strict_esc_prefix(buf) {
                    nsh.ansi == true && nsh.ansi_buffer@ == buf
                } else {
                    nsh.ansi == false && nsh.ansi_buffer@.len() == 0
                }
            },
        }
    } else if input == '\r' || input == '\n' {
        let cmd = osh.input_buffer@;
        let newh = history_push(ost.history.deep_view(), cmd);
        &&& nsh.input_buffer@.len() == 0
        &&& nsh.ansi == false
        &&& nsh.ansi_buffer == osh.ansi_buffer
        &&& nsh.insert == osh.insert
        &&& nst.history.deep_view() == newh
        &&& nsh.history_index as nat == newh.len()
        &&& exists|mid: TermState|
            {
                &&& mid.path == ost.path
                &&& mid.cursor_x == prompt_len()
                &&& mid.cursor_y == ost.cursor_y
                &&& mid.height == ost.height
                &&& mid.width == ost.width
                &&& mid.history.deep_view() == newh
                &&& #[trigger] dispatch_post(
                    root,
                    store,
                    mid,
                    nst,
                    CmdOut { out: r.out, nav: r.nav, pager: r.pager },
                    trim_spaces_end(cmd),
                )
            }
    } else if input == '\u{15}' {
        &&& nsh.input_buffer@.len() == 0
        &&& nsh.ansi_buffer == osh.ansi_buffer && nsh.ansi == osh.ansi && nsh.insert == osh.insert
            && nsh.history_index == osh.history_index
        &&& r_out == clearline_seq(len, x0)
        &&& r_nav is None && r_pager is None
        &&& nst.cursor_x == prompt_len() && nst.cursor_y == ost.cursor_y && nst.path == ost.path
            && nst.height == ost.height && nst.width == ost.width && nst.history == ost.history
    } else if input == '\u{c}' {
        &&& nsh.input_buffer@.len() == 0
        &&& nsh.ansi_buffer == osh.ansi_buffer && nsh.ansi == osh.ansi && nsh.insert == osh.insert
            && nsh.history_index == osh.history_index
        &&& r_out == crate::render::clear_screen_seq(ost.height as nat) + prompt()
        &&& r_nav is None && r_pager is None
        &&& nst.cursor_x == prompt_len() && nst.cursor_y == 0 && nst.path == ost.path
            && nst.height == ost.height && nst.width == ost.width && nst.history == ost.history
    } else if input == '\u{7f}' {
        &&& r_nav is None && r_pager is None
        &&& nsh.ansi_buffer == osh.ansi_buffer && nsh.ansi == osh.ansi && nsh.insert == osh.insert
            && nsh.history_index == osh.history_index
        &&& nst.cursor_y == ost.cursor_y && nst.path == ost.path && nst.height == ost.height
            && nst.width == ost.width && nst.history == ost.history
        &&& if len == 0 || x0 <= prompt_len() {
            nsh.input_buffer == osh.input_buffer && nst.cursor_x == ost.cursor_x && r_out.len()
                == 0
        } else {
            let rel = (x0 - prompt_len() - 1) as nat;
            let newbuf = osh.input_buffer@.remove(rel as int);
            &&& nsh.input_buffer@ == newbuf
            &&& r_out == clearline_seq(len, x0) + newbuf + seq![' '] + repeat_seq(
                esc_seq(Key::Left),
                (len - rel) as nat,
            )
            &&& nst.cursor_x as nat == rel + prompt_len()
        }
    } else if input == '\u{1b}' {
        &&& nsh.ansi == true
        &&& nsh.ansi_buffer@ == seq![input]
        &&& nsh.input_buffer == osh.input_buffer && nsh.insert == osh.insert
            && nsh.history_index == osh.history_index
        &&& r_out.len() == 0 && r_nav is None && r_pager is None
        &&& nst == ost
    } else if input == '\t' {
        &&& tab_post(reg, root, osh, nsh, ost, nst, r_out)
        &&& r_nav is None && r_pager is None
    } else if input >= ' ' {
        &&& r_nav is None && r_pager is None
        &&& nsh.ansi_buffer == osh.ansi_buffer && nsh.ansi == osh.ansi && nsh.insert == osh.insert
            && nsh.history_index == osh.history_index
        &&& nst.cursor_y == ost.cursor_y && nst.path == ost.path && nst.height == ost.height
            && nst.width == ost.width && nst.history == ost.history
        &&& if x0 < prompt_len() + len {
            let rel = (x0 - prompt_len()) as nat;
            if osh.insert {
                &&& nsh.input_buffer@ == osh.input_buffer@.update(rel as int, input)
                &&& r_out == seq![input]
                &&& nst.cursor_x as nat == sat_y(x0, 1)
            } else {
                let newbuf = osh.input_buffer@.insert(rel as int, input);
                let nx = sat_y(x0, 1);
                &&& nsh.input_buffer@ == newbuf
                &&& r_out == clearline_seq(newbuf.len(), x0) + newbuf + repeat_seq(
                    esc_seq(Key::Left),
                    ((newbuf.len() + prompt_len()) - nx) as nat,
                )
                &&& nst.cursor_x as nat == nx
            }
        } else if x0 + 1 < ost.width {
            &&& nsh.input_buffer@ == osh.input_buffer@.push(input)
            &&& r_out == seq![input]
            &&& nst.cursor_x as nat == x0 + 1
        } else {
            &&& nsh.input_buffer == osh.input_buffer
            &&& nst.cursor_x == ost.cursor_x
            &&& r_out.len() == 0
        }
    } else {
        &&& nsh.input_buffer == osh.input_buffer
        &&& nsh.ansi_buffer == osh.ansi_buffer && nsh.ansi == osh.ansi && nsh.insert == osh.insert
            && nsh.history_index == osh.history_index
        &&& r_out.len() == 0 && r_nav is None && r_pager is None
        &&& nst == ost
    }
}

impl Shell {
    /// Apply one recognized control key, as `key_post` describes.
    fn apply_key(&mut self, state: &mut TermState, k: Key) -> (r: String)
        requires
            shell_wf(*old(self), *old(state)),
        ensures
            key_post(*old(self), *final(self), *old(state), *final(state), r@, k),
            final(self).ansi == old(self).ansi,
            final(self).ansi_buffer == old(self).ansi_buffer,
            shell_wf(*final(self), *final(state)),
    {
        match k {
            Key::Up => {
                if self.history_index > 0 {
                    self.history_index = self.history_index - 1;
                    let entry = state.history[self.history_index].clone();
                    let out0 = self.clearline(state);
                    let mut out = out0;
                    out.append(entry.as_str());
                    self.input_buffer = str_to_chars(entry.as_str());
                    let el = entry.as_str().unicode_len();
                    state.cursor_x = sat_add(el, 2);
                    proof {
                        assert(state.history.deep_view()[old(self).history_index - 1]
                            == state.history@[old(self).history_index - 1]@);
                    }
                    out
                } else {
                    String::new()
                }
            },
            Key::Down => {
                if self.history_index < state.history.len() {
                    self.history_index = self.history_index + 1;
                }
                let out = self.clearline(state);
                self.input_buffer.clear();
                state.cursor_x = 2;
                out
            },
            Key::Right => {
                if state.cursor_x - 2 < self.input_buffer.len() {
                    state.cursor_x = sat_add(state.cursor_x, 1);
                    crate::render::esc_str(Key::Right)
                } else {
                    String::new()
                }
            },
            Key::Left => {
                if state.cursor_x > 2 {
                    state.cursor_x = state.cursor_x - 1;
                    crate::render::esc_str(Key::Left)
                } else {
                    String::new()
                }
            },
            Key::Home => {
                let repeat = state.cursor_x - 2;
                state.cursor_x = 2;
                let left = crate::render::esc_str(Key::Left);
                let mut out = String::new();
                crate::render::append_repeat(&mut out, left.as_str(), repeat);
                out
            },
            Key::End => {
                let len = self.input_buffer.len();
                let repeat = len - (state.cursor_x - 2);
                state.cursor_x = sat_add(len, 2);
                let right = crate::render::esc_str(Key::Right);
                let mut out = String::new();
                crate::render::append_repeat(&mut out, right.as_str(), repeat);
                out
            },
            Key::Insert => {
                self.insert = !self.insert;
                String::new()
            },
            Key::PageUp | Key::PageDown | Key::Function => String::new(),
        }
    }

    /// One keystroke: escape sequences are buffered and recognized, Enter
    /// dispatches the line, the editing controls act on the line buffer,
    /// printable characters echo into the line, and anything else is
    /// dropped.
    pub fn readchar(
        &mut self,
        reg: &Registry,
        root: &Entry,
        store: &ContentStore,
        state: &mut TermState,
        input: char,
    ) -> (r: ShellStep)
        requires
            shell_wf(*old(self), *old(state)),
        ensures
            readchar_post(
                *reg,
                *root,
                *store,
                *old(self),
                *final(self),
                *old(state),
                *final(state),
                r,
                input,
            ),
            shell_wf(*final(self), *final(state)),
    {
        if self.ansi {
            self.ansi_buffer.push(input);
            let m = classify_escape(&self.ansi_buffer);
            match m {
                EscMatch::Match(k) => {
                    self.ansi_buffer.clear();
                    self.ansi = false;
                    let out = self.apply_key(state, k);
                    ShellStep { out, nav: Option::None, pager: Option::None }
                },
                EscMatch::Prefix => ShellStep {
                    out: String::new(),
                    nav: Option::None,
                    pager: Option::None,
                },
                EscMatch::Invalid => {
                    self.ansi_buffer.clear();
                    self.ansi = false;
                    ShellStep { out: String::new(), nav: Option::None, pager: Option::None }
                },
            }
        } else if input == '\r' || input == '\n' {
            let cmd = chars_to_string(&self.input_buffer);
            self.input_buffer.clear();
            state.cursor_x = 2;
            let step = self.command(root, store, state, cmd.as_str());
            proof {
                let newh = history_push(old(state).history.deep_view(), cmd@);
                let mid = choose|mid: TermState|
                    {
                        &&& mid.path == old(state).path
                        &&& mid.cursor_x == prompt_len()
                        &&& mid.cursor_y == old(state).cursor_y
                        &&& mid.height == old(state).height
                        &&& mid.width == old(state).width
                        &&& mid.history.deep_view() == newh
                        &&& #[trigger] dispatch_post(
                            *root,
                            *store,
                            mid,
                            *state,
                            CmdOut { out: step.out, nav: step.nav, pager: step.pager },
                            trim_spaces_end(cmd@),
                        )
                    };
                assert(dispatch_post(
                    *root,
                    *store,
                    mid,
                    *state,
                    CmdOut { out: step.out, nav: step.nav, pager: step.pager },
                    trim_spaces_end(cmd@),
                ));
                assert(state.cursor_x == prompt_len());
            }
            step
        } else if input == '\u{15}' {
            let out = self.clearline(state);
            self.input_buffer.clear();
            ShellStep { out, nav: Option::None, pager: Option::None }
        } else if input == '\u{c}' {
            self.input_buffer.clear();
            let out = Shell::clear(state);
            ShellStep { out, nav: Option::None, pager: Option::None }
        } else if input == '\u{7f}' {
            let len = self.input_buffer.len();
            if len == 0 || state.cursor_x <= 2 {
                ShellStep { out: String::new(), nav: Option::None, pager: Option::None }
            } else {
                let rel = state.cursor_x - 3;
                let out0 = self.clearline(state);
                let mut out = out0;
                self.input_buffer.remove(rel);
                let newstr = chars_to_string(&self.input_buffer);
                out.append(newstr.as_str());
                push_char(&mut out, ' ');
                let left = crate::render::esc_str(Key::Left);
                crate::render::append_repeat(&mut out, left.as_str(), len - rel);
                state.cursor_x = rel + 2;
                let step = ShellStep { out, nav: Option::None, pager: Option::None };
                proof {
                    assert(step.out@ =~= clearline_seq(len as nat, old(state).cursor_x as nat)
                        + self.input_buffer@ + seq![' '] + repeat_seq(
                        esc_seq(Key::Left),
                        (len - rel) as nat,
                    ));
                }
                step
            }
        } else if input == '\u{1b}' {
            self.ansi = true;
            self.ansi_buffer.clear();
            self.ansi_buffer.push(input);
            proof {
                assert(self.ansi_buffer@ =~= seq![input]);
            }
            ShellStep { out: String::new(), nav: Option::None, pager: Option::None }
        } else if input == '\t' {
            let out = self.autocomplete(reg, root, state);
            ShellStep { out, nav: Option::None, pager: Option::None }
        } else if input >= ' ' {
            let len = self.input_buffer.len();
            if state.cursor_x - 2 < len {
                let rel = state.cursor_x - 2;
                if self.insert {
                    self.input_buffer.remove(rel);
                    self.input_buffer.insert(rel, input);
                    proof {
                        assert(self.input_buffer@ =~= old(self).input_buffer@.update(
                            rel as int,
                            input,
                        ));
                    }
                    let mut out = String::new();
                    push_char(&mut out, input);
                    state.cursor_x = sat_add(state.cursor_x, 1);
                    proof {
                        assert(out@ =~= seq![input]);
                    }
                    ShellStep { out, nav: Option::None, pager: Option::None }
                } else {
                    let new_x = sat_add(state.cursor_x, 1);
                    self.input_buffer.insert(rel, input);
                    let out0 = self.clearline(state);
                    let mut out = out0;
                    let newstr = chars_to_string(&self.input_buffer);
                    out.append(newstr.as_str());
                    let left_n = self.input_buffer.len() - (new_x - 2);
                    let left = crate::render::esc_str(Key::Left);
                    crate::render::append_repeat(&mut out, left.as_str(), left_n);
                    state.cursor_x = new_x;
                    ShellStep { out, nav: Option::None, pager: Option::None }
                }
            } else if state.width > 0 && state.cursor_x < state.width - 1 {
                state.cursor_x = state.cursor_x + 1;
                self.input_buffer.push(input);
                let mut out = String::new();
                push_char(&mut out, input);
                proof {
                    assert(out@ =~= seq![input]);
                }
                ShellStep { out, nav: Option::None, pager: Option::None }
            } else {
                ShellStep { out: String::new(), nav: Option::None, pager: Option::None }
            }
        } else {
            ShellStep { out: String::new(), nav: Option::None, pager: Option::None }
        }
    }
}

} // verus!

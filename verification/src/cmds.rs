//! The command registry and the built-in commands: each command takes the
//! session state and the raw command line and yields output text, an
//! optional navigation target and an optional switch to the pager.

use vstd::prelude::*;

use crate::filesystem::{joined_path, join_path, ContentStore, Entry};
use crate::less::Less;
use crate::render::{
    append_clear_screen, append_solo, clear_screen_seq, nl, nl_str, prompt, prompt_len, prompt_str,
    repeat_seq, solo_seq,
};
use crate::termstate::TermState;
use crate::utils::{
    dec_str, first_index_of, find_char, push_char, split_on, text_lines, u64_to_string,
};

verus! {

/// Where a command is offered for completion: on every client, only on
/// desktop-sized clients, or only on mobile clients.
#[derive(Clone, Copy, PartialEq, Eq, Structural, Debug)]
pub enum MobileType {
    Mobile,
    NotMobile,
    Both,
}

/// One registered command: its name, a line of help, and where it is
/// offered for completion.
pub struct CmdInfo {
    pub name: String,
    pub help: String,
    pub mobile: MobileType,
}

/// The name-to-command table, built once before the first character is
/// processed and read-only afterwards.
pub struct Registry {
    pub cmds: Vec<CmdInfo>,
}

/// The names of the built-in commands, in registration order.
pub open spec fn command_names() -> Seq<Seq<char>> {
    seq![
        "clear"@,
        "pwd"@,
        "whoami"@,
        "whereis"@,
        "ls"@,
        "cd"@,
        "cat"@,
        "less"@,
        "echo"@,
        "history"@,
        "help"@,
    ]
}

/// Whether a token names a built-in command.
pub open spec fn is_command_name(name: Seq<char>) -> bool {
    command_names().contains(name)
}

impl Registry {
    /// The registered names, in order.
    pub open spec fn names(self) -> Seq<Seq<char>> {
        self.cmds@.map_values(|c: CmdInfo| c.name@)
    }
}

fn reg_entry(name: &str, help: &str) -> (r: CmdInfo)
    ensures
        r.name@ == name@,
        r.help@ == help@,
        r.mobile == MobileType::Both,
{
    CmdInfo { name: name.to_owned(), help: help.to_owned(), mobile: MobileType::Both }
}

/// Build the command registry.  Idempotent by construction: every call
/// yields the same table.
pub fn cmds_init() -> (r: Registry)
    ensures
        r.names() == command_names(),
        forall|i: int| 0 <= i < r.cmds@.len() ==> (#[trigger] r.cmds@[i]).mobile
            == MobileType::Both,
{
    let mut cmds: Vec<CmdInfo> = Vec::new();
    cmds.push(reg_entry("clear", "clear terminal"));
    cmds.push(reg_entry("pwd", "print current directory"));
    cmds.push(reg_entry("whoami", "print current user"));
    cmds.push(reg_entry("whereis", "locate where stuff is"));
    cmds.push(reg_entry("ls", "list directory contents"));
    cmds.push(reg_entry("cd", "change directory"));
    cmds.push(reg_entry("cat", "print file to stdout"));
    cmds.push(reg_entry("less", "view file inside screen"));
    cmds.push(reg_entry("echo", "echo message"));
    cmds.push(reg_entry("history", "print cmd history"));
    cmds.push(reg_entry("help", "print this message"));
    let r = Registry { cmds };
    proof {
        assert(r.names() =~= command_names());
    }
    r
}

/// What one command produced: output text, an optional navigation target
/// for the host, and an optional switch to the pager.
pub struct CmdOut {
    pub out: String,
    pub nav: Option<String>,
    pub pager: Option<Less>,
}

/// A cursor row bumped by `k` output rows, stopping at the top of `usize`.
pub open spec fn sat_y(y: nat, k: nat) -> nat {
    if y + k <= usize::MAX as nat {
        (y + k) as nat
    } else {
        usize::MAX as nat
    }
}

/// The state change of a command that prints one message line and a fresh
/// prompt: the cursor returns to the prompt column, two rows are consumed,
/// and everything else is untouched.
pub open spec fn state_after_solo(o: TermState, n: TermState) -> bool {
    &&& n.cursor_x == prompt_len()
    &&& n.cursor_y == sat_y(o.cursor_y as nat, 2)
    &&& n.path == o.path
    &&& n.height == o.height
    &&& n.width == o.width
    &&& n.history == o.history
}

/// Print `msg` on its own line followed by a fresh prompt, accounting for
/// the two rows it consumes.
pub fn solo_out(state: &mut TermState, msg: &str) -> (r: String)
    ensures
        r@ == solo_seq(msg@),
        state_after_solo(*old(state), *final(state)),
{
    let mut out = String::new();
    append_solo(&mut out, msg);
    state.cursor_x = 2;
    state.cursor_y = crate::utils::sat_add(state.cursor_y, 2);
    out
}

/// The remainder of a command line after its first space; empty when the
/// line has no space.
pub open spec fn echo_rest(line: Seq<char>) -> Seq<char> {
    match first_index_of(line, ' ') {
        Option::Some(i) => line.skip(i + 1 as int),
        Option::None => Seq::<char>::empty(),
    }
}

/// What `echo` leaves behind.
pub open spec fn echo_post(o: TermState, n: TermState, r: CmdOut, line: Seq<char>) -> bool {
    &&& r.out@ == solo_seq(echo_rest(line))
    &&& r.nav is None
    &&& r.pager is None
    &&& state_after_solo(o, n)
}

/// `echo`: print everything after the command word.
pub fn echo(state: &mut TermState, args: &str) -> (r: CmdOut)
    ensures
        echo_post(*old(state), *final(state), r, args@),
{
    let n = args.unicode_len();
    let msg: &str = match find_char(args, ' ') {
        Option::Some(i) => {
            let m = args.substring_char(i + 1, n);
            proof {
                assert(m@ =~= args@.skip(i + 1));
            }
            m
        },
        Option::None => {
            proof {
                reveal_strlit("");
                assert(""@ =~= Seq::<char>::empty());
            }
            ""
        },
    };
    CmdOut { out: solo_out(state, msg), nav: Option::None, pager: Option::None }
}

/// What `whereis` leaves behind.
pub open spec fn whereis_post(o: TermState, n: TermState, r: CmdOut) -> bool {
    &&& r.out@ == solo_seq("in-memory virtual filesystem"@)
    &&& r.nav is None
    &&& r.pager is None
    &&& state_after_solo(o, n)
}

/// `whereis`: say where the tree lives.
pub fn whereis(state: &mut TermState, _args: &str) -> (r: CmdOut)
    ensures
        whereis_post(*old(state), *final(state), r),
{
    CmdOut {
        out: solo_out(state, "in-memory virtual filesystem"),
        nav: Option::None,
        pager: Option::None,
    }
}

/// What `whoami` leaves behind.
pub open spec fn whoami_post(o: TermState, n: TermState, r: CmdOut) -> bool {
    &&& r.out@ == solo_seq("guest"@)
    &&& r.nav is None
    &&& r.pager is None
    &&& state_after_solo(o, n)
}

/// `whoami`: the session user.
pub fn whoami(state: &mut TermState, _args: &str) -> (r: CmdOut)
    ensures
        whoami_post(*old(state), *final(state), r),
{
    CmdOut { out: solo_out(state, "guest"), nav: Option::None, pager: Option::None }
}

/// What `pwd` leaves behind.
pub open spec fn pwd_post(o: TermState, n: TermState, r: CmdOut) -> bool {
    &&& r.out@ == solo_seq(seq!['/'] + o.path@)
    &&& r.nav is None
    &&& r.pager is None
    &&& state_after_solo(o, n)
}

/// `pwd`: the current directory with a leading slash.
pub fn pwd(state: &mut TermState, _args: &str) -> (r: CmdOut)
    ensures
        pwd_post(*old(state), *final(state), r),
{
    let mut msg = String::new();
    push_char(&mut msg, '/');
    msg.append(state.path.as_str());
    proof {
        assert(msg@ =~= seq!['/'] + state.path@);
    }
    CmdOut { out: solo_out(state, msg.as_str()), nav: Option::None, pager: Option::None }
}

/// The help text, one line per command.
pub open spec fn help_text() -> Seq<char> {
    "clear\t\tclear terminal\n\rpwd\t\tprint current directory\n\rwhoami\t\tprint current user\n\rwhereis\t\tlocate where stuff is\n\rls\t[PATH]\tlist directory contents\n\rcd\t[DIR]\tchange directory\n\rcat\tFILE\tprint file to stdout\n\rless\tFILE\tview file inside screen\n\recho\tMSG\techo message\n\rhistory\t\tprint cmd history\n\rhelp\t\tprint this message"@
}

/// What `help` leaves behind.
pub open spec fn help_post(o: TermState, n: TermState, r: CmdOut) -> bool {
    &&& r.out@ == solo_seq(help_text())
    &&& r.nav is None
    &&& r.pager is None
    &&& state_after_solo(o, n)
}

/// `help`: print one line per command.
pub fn help(state: &mut TermState, _args: &str) -> (r: CmdOut)
    ensures
        help_post(*old(state), *final(state), r),
{
    let text =
        "clear\t\tclear terminal\n\rpwd\t\tprint current directory\n\rwhoami\t\tprint current user\n\rwhereis\t\tlocate where stuff is\n\rls\t[PATH]\tlist directory contents\n\rcd\t[DIR]\tchange directory\n\rcat\tFILE\tprint file to stdout\n\rless\tFILE\tview file inside screen\n\recho\tMSG\techo message\n\rhistory\t\tprint cmd history\n\rhelp\t\tprint this message";
    CmdOut { out: solo_out(state, text), nav: Option::None, pager: Option::None }
}

/// What `clear` leaves behind.
pub open spec fn clear_post(o: TermState, n: TermState, r: CmdOut) -> bool {
    &&& r.out@ == clear_screen_seq(o.height as nat) + prompt()
    &&& r.nav is None
    &&& r.pager is None
    &&& n.cursor_x == prompt_len()
    &&& n.cursor_y == 0
    &&& n.path == o.path
    &&& n.height == o.height
    &&& n.width == o.width
    &&& n.history == o.history
}

/// `clear`: scroll the screen away and print a fresh prompt at the top.
pub fn clear(state: &mut TermState, _args: &str) -> (r: CmdOut)
    ensures
        clear_post(*old(state), *final(state), r),
{
    let mut out = String::new();
    append_clear_screen(&mut out, state.height);
    let p = prompt_str();
    out.append(p.as_str());
    state.cursor_y = 0;
    state.cursor_x = 2;
    CmdOut { out, nav: Option::None, pager: Option::None }
}

/// An index padded with spaces to at least four columns.
pub open spec fn pad4(n: nat) -> Seq<char> {
    let d = dec_str(n);
    if d.len() >= 4 {
        d
    } else {
        repeat_seq(seq![' '], (4 - d.len()) as nat) + d
    }
}

/// The history listing: one line per entry, oldest first, each headed by
/// its padded index.
pub open spec fn history_block(h: Seq<Seq<char>>) -> Seq<char>
    decreases h.len(),
{
    if h.len() == 0 {
        Seq::<char>::empty()
    } else {
        history_block(h.drop_last()) + pad4((h.len() - 1) as nat) + seq![' '] + h.last() + nl()
    }
}

fn pad4_str(n: u64) -> (r: String)
    ensures
        r@ == pad4(n as nat),
{
    let d = u64_to_string(n);
    let dn = d.as_str().unicode_len();
    if dn >= 4 {
        d
    } else {
        let mut out = String::new();
        let mut i: usize = 0;
        while i < 4 - dn
            invariant
                dn < 4,
                i <= 4 - dn,
                out@ == repeat_seq(seq![' '], i as nat),
            decreases 4 - dn - i,
        {
            push_char(&mut out, ' ');
            proof {
                assert(repeat_seq(seq![' '], (i + 1) as nat) =~= repeat_seq(seq![' '], i as nat)
                    + seq![' ']);
            }
            i += 1;
        }
        out.append(d.as_str());
        proof {
            assert(out@ =~= pad4(n as nat));
        }
        out
    }
}

/// What `history` leaves behind.
pub open spec fn history_post(o: TermState, n: TermState, r: CmdOut) -> bool {
    &&& r.out@ == nl() + history_block(o.history.deep_view()) + prompt()
    &&& r.nav is None
    &&& r.pager is None
    &&& n.cursor_x == prompt_len()
    &&& n.cursor_y == sat_y(o.cursor_y as nat, o.history@.len() + 1)
    &&& n.path == o.path
    &&& n.height == o.height
    &&& n.width == o.width
    &&& n.history == o.history
}

/// `history`: list the submitted command lines with their indices.
pub fn history(state: &mut TermState, _args: &str) -> (r: CmdOut)
    ensures
        history_post(*old(state), *final(state), r),
{
    let ghost hdv = state.history.deep_view();
    let mut out = nl_str();
    let n = state.history.len();
    proof {
        assert(hdv.len() == state.history@.len());
        assert(hdv.subrange(0, 0) =~= Seq::<Seq<char>>::empty());
    }
    let mut i: usize = 0;
    while i < n
        invariant
            i <= n,
            n == state.history@.len(),
            hdv == state.history.deep_view(),
            out@ == nl() + history_block(hdv.subrange(0, i as int)),
        decreases n - i,
    {
        let idx = pad4_str(i as u64);
        out.append(idx.as_str());
        push_char(&mut out, ' ');
        out.append(state.history[i].as_str());
        let nls = nl_str();
        out.append(nls.as_str());
        proof {
            let p1 = hdv.subrange(0, i + 1 as int);
            assert(p1.drop_last() =~= hdv.subrange(0, i as int));
            assert(p1.last() == hdv[i as int]);
            assert(hdv[i as int] == state.history@[i as int]@);
            assert(out@ =~= nl() + history_block(p1));
        }
        i += 1;
    }
    let p = prompt_str();
    out.append(p.as_str());
    proof {
        assert(hdv.subrange(0, n as int) =~= hdv);
    }
    state.cursor_x = 2;
    state.cursor_y = crate::utils::sat_add(state.cursor_y, crate::utils::sat_add(n, 1));
    proof {
        assert(final(state).cursor_y == sat_y(
            old(state).cursor_y as nat,
            old(state).history@.len() + 1,
        ));
    }
    CmdOut { out, nav: Option::None, pager: Option::None }
}

// ---------------------------------------------------------------------------
// Argument parsing for commands taking one optional path.
// ---------------------------------------------------------------------------

/// Fold over the tokens after the command word: flag-like tokens and a
/// second positional are rejected with the offending token; otherwise the
/// single positional (if any) is the argument.
pub open spec fn one_path_arg(toks: Seq<Seq<char>>, acc: Option<Seq<char>>) -> Result<
    Option<Seq<char>>,
    Seq<char>,
>
    decreases toks.len(),
{
    if toks.len() == 0 {
        Ok(acc)
    } else {
        let t = toks[0];
        if t.len() > 1 && t[0] == '-' {
            Err(t)
        } else if acc is Some {
            Err(t)
        } else {
            one_path_arg(toks.skip(1), Option::Some(t))
        }
    }
}

/// Parse the tokens after the command word as one optional path argument.
fn parse_one_path_arg(toks: &Vec<String>) -> (r: Result<Option<String>, String>)
    requires
        toks@.len() >= 1,
    ensures
        ({
            let sp = one_path_arg(toks.deep_view().skip(1), Option::None);
            match r {
                Ok(a) => sp matches Ok(sa) && (match (a, sa) {
                    (Option::None, Option::None) => true,
                    (Option::Some(x), Option::Some(y)) => x@ == y,
                    _ => false,
                }),
                Err(t) => sp matches Err(ts) && t@ == ts,
            }
        }),
{
    let ghost dv = toks.deep_view();
    let n = toks.len();
    let mut acc: Option<String> = Option::None;
    let mut i: usize = 1;
    proof {
        assert(dv.len() == toks@.len());
    }
    while i < n
        invariant
            1 <= i <= n,
            n == toks@.len(),
            dv == toks.deep_view(),
            one_path_arg(dv.skip(1), Option::None) == one_path_arg(
                dv.skip(i as int),
                match acc {
                    Option::Some(s) => Option::Some(s@),
                    Option::None => Option::<Seq<char>>::None,
                },
            ),
        decreases n - i,
    {
        let ghost pre = dv.skip(i as int);
        proof {
            assert(pre[0] == dv[i as int]);
            assert(dv[i as int] == toks@[i as int]@);
            assert(pre.skip(1) =~= dv.skip(i + 1 as int));
        }
        let t = &toks[i];
        let tn = t.as_str().unicode_len();
        if tn > 1 && t.as_str().get_char(0) == '-' {
            return Err(t.clone());
        }
        if acc.is_some() {
            return Err(t.clone());
        }
        acc = Option::Some(t.clone());
        i += 1;
    }
    proof {
        assert(dv.skip(i as int) =~= Seq::<Seq<char>>::empty());
    }
    Ok(acc)
}

// ---------------------------------------------------------------------------
// cd, cat, less.
// ---------------------------------------------------------------------------

/// What `cd` leaves behind.
pub open spec fn cd_post(root: Entry, o: TermState, n: TermState, r: CmdOut, line: Seq<char>)
    -> bool {
    ({
        let toks = split_on(line, ' ');
        match one_path_arg(toks.skip(1), Option::None) {
            Err(t) => {
                &&& r.out@ == solo_seq("cd: unexpected argument: "@ + t)
                &&& r.nav is None
                &&& r.pager is None
                &&& state_after_solo(o, n)
            },
            Ok(opt) => {
                let arg = match opt {
                    Option::Some(a) => a,
                    Option::None => seq!['/'],
                };
                let joined = joined_path(o.path@, arg);
                match root.lookup(joined) {
                    Option::None => {
                        &&& r.out@ == solo_seq(arg + ": No such directory"@)
                        &&& r.nav is None
                        &&& r.pager is None
                        &&& state_after_solo(o, n)
                    },
                    Option::Some(e) => if !e.is_dir {
                        &&& r.out@ == solo_seq("can't cd to "@ + arg + ": Not a directory"@)
                        &&& r.nav is None
                        &&& r.pager is None
                        &&& state_after_solo(o, n)
                    } else {
                        &&& n.path@ == e.url@
                        &&& r.nav matches Option::Some(nv) && nv@ == seq!['/'] + e.url@
                        &&& r.out@ == nl() + prompt()
                        &&& r.pager is None
                        &&& n.cursor_x == prompt_len()
                        &&& n.cursor_y == sat_y(o.cursor_y as nat, 1)
                        &&& n.height == o.height
                        &&& n.width == o.width
                        &&& n.history == o.history
                    },
                }
            },
        }
    })
}

/// `cd`: change into a directory, defaulting to the root.  A successful
/// change navigates the host to the directory's canonical path.
pub fn cd(root: &Entry, state: &mut TermState, cmdline: &str) -> (r: CmdOut)
    ensures
        cd_post(*root, *old(state), *final(state), r, cmdline@),
{
    let toks = crate::utils::split_str(cmdline, ' ');
    proof {
        crate::utils::lemma_split_on_nonempty(cmdline@, ' ');
    }
    match parse_one_path_arg(&toks) {
        Err(t) => {
            let mut msg = "cd: unexpected argument: ".to_owned();
            msg.append(t.as_str());
            CmdOut { out: solo_out(state, msg.as_str()), nav: Option::None, pager: Option::None }
        },
        Ok(opt) => {
            let arg: String = match opt {
                Option::Some(a) => a,
                Option::None => {
                    let mut d = String::new();
                    push_char(&mut d, '/');
                    proof {
                        assert(d@ =~= seq!['/']);
                    }
                    d
                },
            };
            let joined = join_path(state.path.as_str(), arg.as_str());
            match root.get_file(joined.as_str()) {
                Err(_) => {
                    let mut msg = arg.clone();
                    msg.append(": No such directory");
                    CmdOut {
                        out: solo_out(state, msg.as_str()),
                        nav: Option::None,
                        pager: Option::None,
                    }
                },
                Ok(e) => {
                    if !e.is_dir {
                        let mut msg = "can't cd to ".to_owned();
                        msg.append(arg.as_str());
                        msg.append(": Not a directory");
                        CmdOut {
                            out: solo_out(state, msg.as_str()),
                            nav: Option::None,
                            pager: Option::None,
                        }
                    } else {
                        state.path = e.url.clone();
                        let mut nav = String::new();
                        push_char(&mut nav, '/');
                        nav.append(e.url.as_str());
                        proof {
                            assert(nav@ =~= seq!['/'] + e.url@);
                        }
                        let mut out = nl_str();
                        let p = prompt_str();
                        out.append(p.as_str());
                        state.cursor_x = 2;
                        state.cursor_y = crate::utils::sat_add(state.cursor_y, 1);
                        CmdOut { out, nav: Option::Some(nav), pager: Option::None }
                    }
                },
            }
        },
    }
}

/// The lines of a text each followed by a newline.
pub open spec fn lines_out(ls: Seq<Seq<char>>) -> Seq<char>
    decreases ls.len(),
{
    if ls.len() == 0 {
        Seq::<char>::empty()
    } else {
        lines_out(ls.drop_last()) + ls.last() + nl()
    }
}

/// What `cat` leaves behind.
pub open spec fn cat_post(
    root: Entry,
    store: ContentStore,
    o: TermState,
    n: TermState,
    r: CmdOut,
    line: Seq<char>,
) -> bool {
    &&& r.nav is None
    &&& r.pager is None
    &&& ({
        let toks = split_on(line, ' ');
        match one_path_arg(toks.skip(1), Option::None) {
            Err(t) => r.out@ == solo_seq("cat: unexpected argument: "@ + t) && state_after_solo(
                o,
                n,
            ),
            Ok(opt) => match opt {
                Option::None => r.out@ == solo_seq("cat: missing file operand"@)
                    && state_after_solo(o, n),
                Option::Some(arg) => {
                    let joined = joined_path(o.path@, arg);
                    match root.lookup(joined) {
                        Option::None => r.out@ == solo_seq(arg + ": No such file or directory"@)
                            && state_after_solo(o, n),
                        Option::Some(e) => if e.is_dir {
                            r.out@ == solo_seq(arg + ": Is a directory"@) && state_after_solo(
                                o,
                                n,
                            )
                        } else {
                            match store.content_of(e.url@) {
                                Option::None => r.out@ == solo_seq("read error: "@ + arg)
                                    && state_after_solo(o, n),
                                Option::Some(text) => {
                                    let lines = text_lines(text);
                                    &&& r.out@ == nl() + lines_out(lines) + prompt()
                                    &&& n.cursor_x == prompt_len()
                                    &&& n.cursor_y == sat_y(o.cursor_y as nat, lines.len() + 2)
                                    &&& n.path == o.path
                                    &&& n.height == o.height
                                    &&& n.width == o.width
                                    &&& n.history == o.history
                                },
                            }
                        },
                    }
                },
            },
        }
    })
}

/// `cat`: print a file's lines between the current line and a fresh
/// prompt.
pub fn cat(root: &Entry, store: &ContentStore, state: &mut TermState, cmdline: &str) -> (r: CmdOut)
    ensures
        cat_post(*root, *store, *old(state), *final(state), r, cmdline@),
{
    let toks = crate::utils::split_str(cmdline, ' ');
    proof {
        crate::utils::lemma_split_on_nonempty(cmdline@, ' ');
    }
    match parse_one_path_arg(&toks) {
        Err(t) => {
            let mut msg = "cat: unexpected argument: ".to_owned();
            msg.append(t.as_str());
            CmdOut { out: solo_out(state, msg.as_str()), nav: Option::None, pager: Option::None }
        },
        Ok(Option::None) => CmdOut {
            out: solo_out(state, "cat: missing file operand"),
            nav: Option::None,
            pager: Option::None,
        },
        Ok(Option::Some(arg)) => {
            let joined = join_path(state.path.as_str(), arg.as_str());
            match root.get_file(joined.as_str()) {
                Err(_) => {
                    let mut msg = arg.clone();
                    msg.append(": No such file or directory");
                    CmdOut {
                        out: solo_out(state, msg.as_str()),
                        nav: Option::None,
                        pager: Option::None,
                    }
                },
                Ok(e) => {
                    if e.is_dir {
                        let mut msg = arg.clone();
                        msg.append(": Is a directory");
                        CmdOut {
                            out: solo_out(state, msg.as_str()),
                            nav: Option::None,
                            pager: Option::None,
                        }
                    } else {
                        match e.load(store) {
                            Err(_) => {
                                let mut msg = "read error: ".to_owned();
                                msg.append(arg.as_str());
                                CmdOut {
                                    out: solo_out(state, msg.as_str()),
                                    nav: Option::None,
                                    pager: Option::None,
                                }
                            },
                            Ok(content) => {
                                let lines = crate::utils::lines_of(content.as_str());
                                let ghost ldv = lines.deep_view();
                                let mut out = nl_str();
                                let ln = lines.len();
                                proof {
                                    assert(ldv.len() == lines@.len());
                                    assert(ldv.subrange(0, 0) =~= Seq::<Seq<char>>::empty());
                                }
                                let mut i: usize = 0;
                                while i < ln
                                    invariant
                                        i <= ln,
                                        ln == lines@.len(),
                                        ldv == lines.deep_view(),
                                        out@ == nl() + lines_out(ldv.subrange(0, i as int)),
                                    decreases ln - i,
                                {
                                    out.append(lines[i].as_str());
                                    let nls = nl_str();
                                    out.append(nls.as_str());
                                    proof {
                                        let p1 = ldv.subrange(0, i + 1 as int);
                                        assert(p1.drop_last() =~= ldv.subrange(0, i as int));
                                        assert(p1.last() == ldv[i as int]);
                                        assert(ldv[i as int] == lines@[i as int]@);
                                        assert(out@ =~= nl() + lines_out(p1));
                                    }
                                    i += 1;
                                }
                                let p = prompt_str();
                                out.append(p.as_str());
                                proof {
                                    assert(ldv.subrange(0, ln as int) =~= ldv);
                                }
                                state.cursor_x = 2;
                                state.cursor_y = crate::utils::sat_add(
                                    state.cursor_y,
                                    crate::utils::sat_add(ln, 2),
                                );
                                CmdOut { out, nav: Option::None, pager: Option::None }
                            },
                        }
                    }
                },
            }
        },
    }
}

/// What `less` leaves behind.
pub open spec fn less_post(
    root: Entry,
    store: ContentStore,
    o: TermState,
    n: TermState,
    r: CmdOut,
    line: Seq<char>,
) -> bool {
    ({
        let toks = split_on(line, ' ');
        match one_path_arg(toks.skip(1), Option::None) {
            Err(t) => r.out@ == solo_seq("less: unexpected argument: "@ + t) && r.nav is None
                && r.pager is None && state_after_solo(o, n),
            Ok(opt) => match opt {
                Option::None => r.out@ == solo_seq("less: missing file operand"@) && r.nav is None
                    && r.pager is None && state_after_solo(o, n),
                Option::Some(arg) => {
                    let joined = joined_path(o.path@, arg);
                    let found = if crate::utils::resolved_segs(joined).len() == 0 {
                        Option::<Entry>::None
                    } else {
                        root.lookup(joined)
                    };
                    match found {
                        Option::None => r.out@ == solo_seq(arg + ": No such file or directory"@)
                            && r.nav is None && r.pager is None && state_after_solo(o, n),
                        Option::Some(e) => if e.is_dir {
                            r.out@ == solo_seq("read error: "@ + arg + " Is a directory"@)
                                && r.nav is None && r.pager is None && state_after_solo(o, n)
                        } else {
                            match store.content_of(e.url@) {
                                Option::None => r.out@ == solo_seq("read error: "@ + arg)
                                    && r.nav is None && r.pager is None && state_after_solo(o, n),
                                Option::Some(text) => {
                                    let lines = text_lines(text);
                                    &&& r.pager matches Option::Some(pg) && pg.lines.deep_view()
                                        == lines && pg.line == 0
                                    &&& r.out@ == crate::less::render_seq(
                                        lines,
                                        o.height as nat,
                                        0,
                                    )
                                    &&& r.nav matches Option::Some(nv) && nv@ == seq!['/']
                                        + e.url@
                                    &&& n == o
                                },
                            }
                        },
                    }
                },
            },
        }
    })
}

/// `less`: open the pager on a file.  On success the new pager is handed
/// back for the controller to install, with the rendered first screen and
/// the navigation target.
pub fn less(root: &Entry, store: &ContentStore, state: &mut TermState, cmdline: &str) -> (r:
    CmdOut)
    ensures
        less_post(*root, *store, *old(state), *final(state), r, cmdline@),
{
    let toks = crate::utils::split_str(cmdline, ' ');
    proof {
        crate::utils::lemma_split_on_nonempty(cmdline@, ' ');
    }
    match parse_one_path_arg(&toks) {
        Err(t) => {
            let mut msg = "less: unexpected argument: ".to_owned();
            msg.append(t.as_str());
            CmdOut { out: solo_out(state, msg.as_str()), nav: Option::None, pager: Option::None }
        },
        Ok(Option::None) => CmdOut {
            out: solo_out(state, "less: missing file operand"),
            nav: Option::None,
            pager: Option::None,
        },
        Ok(Option::Some(arg)) => {
            let mut pager = Less::new();
            let res = pager.less(root, store, &*state, arg.as_str());
            match res {
                Ok((out, nav)) => CmdOut {
                    out,
                    nav: Option::Some(nav),
                    pager: Option::Some(pager),
                },
                Err(msg) => CmdOut {
                    out: solo_out(state, msg.as_str()),
                    nav: Option::None,
                    pager: Option::None,
                },
            }
        },
    }
}

// ---------------------------------------------------------------------------
// ls: argument parsing.
// ---------------------------------------------------------------------------

/// The flags of an `ls` invocation, and its optional path argument.
pub struct LsArgs {
    pub recursive: bool,
    pub directory: bool,
    pub human: bool,
    pub list: bool,
    pub file: Option<String>,
}

/// Apply one group of short flags (the characters after the dash) to the
/// accumulated `(recursive, directory, human, list)` switches; an unknown
/// character rejects the group.
pub open spec fn apply_short(cs: Seq<char>, f: (bool, bool, bool, bool)) -> Option<
    (bool, bool, bool, bool),
>
    decreases cs.len(),
{
    if cs.len() == 0 {
        Option::Some(f)
    } else {
        let c = cs[0];
        if c == 'R' {
            apply_short(cs.skip(1), (true, f.1, f.2, f.3))
        } else if c == 'd' {
            apply_short(cs.skip(1), (f.0, true, f.2, f.3))
        } else if c == 'h' {
            apply_short(cs.skip(1), (f.0, f.1, true, f.3))
        } else if c == 'l' {
            apply_short(cs.skip(1), (f.0, f.1, f.2, true))
        } else {
            Option::None
        }
    }
}

/// Fold over the tokens after the command word: long or short flags set
/// switches, one positional is the path, and anything else is rejected
/// with the offending token.
pub open spec fn ls_parse(toks: Seq<Seq<char>>, f: (bool, bool, bool, bool), file: Option<
    Seq<char>,
>) -> Result<((bool, bool, bool, bool), Option<Seq<char>>), Seq<char>>
    decreases toks.len(),
{
    if toks.len() == 0 {
        Ok((f, file))
    } else {
        let t = toks[0];
        if t == "--recursive"@ {
            ls_parse(toks.skip(1), (true, f.1, f.2, f.3), file)
        } else if t == "--directory"@ {
            ls_parse(toks.skip(1), (f.0, true, f.2, f.3), file)
        } else if t.len() > 1 && t[0] == '-' && t[1] == '-' {
            Err(t)
        } else if t.len() > 1 && t[0] == '-' {
            match apply_short(t.skip(1), f) {
                Option::Some(f2) => ls_parse(toks.skip(1), f2, file),
                Option::None => Err(t),
            }
        } else if file is Some {
            Err(t)
        } else {
            ls_parse(toks.skip(1), f, Option::Some(t))
        }
    }
}

/// Parse the tokens after the command word as `ls` arguments.
#[verifier::loop_isolation(false)]
fn parse_ls_args(toks: &Vec<String>) -> (r: Result<LsArgs, String>)
    requires
        toks@.len() >= 1,
    ensures
        ({
            let sp = ls_parse(toks.deep_view().skip(1), (false, false, false, false), Option::None);
            match r {
                Ok(a) => sp matches Ok(sa) && sa.0.0 == a.recursive && sa.0.1 == a.directory
                    && sa.0.2 == a.human && sa.0.3 == a.list && (match (a.file, sa.1) {
                    (Option::None, Option::None) => true,
                    (Option::Some(x), Option::Some(y)) => x@ == y,
                    _ => false,
                }),
                Err(t) => sp matches Err(ts) && t@ == ts,
            }
        }),
{
    let ghost dv = toks.deep_view();
    let n = toks.len();
    let mut rec = false;
    let mut dir = false;
    let mut hum = false;
    let mut lst = false;
    let mut file: Option<String> = Option::None;
    let mut i: usize = 1;
    proof {
        assert(dv.len() == toks@.len());
    }
    while i < n
        invariant
            1 <= i <= n,
            n == toks@.len(),
            dv == toks.deep_view(),
            ls_parse(dv.skip(1), (false, false, false, false), Option::None) == ls_parse(
                dv.skip(i as int),
                (rec, dir, hum, lst),
                match file {
                    Option::Some(s) => Option::Some(s@),
                    Option::None => Option::<Seq<char>>::None,
                },
            ),
        decreases n - i,
    {
        let ghost pre = dv.skip(i as int);
        proof {
            assert(dv.len() == toks@.len());
            assert(pre[0] == dv[i as int]);
            assert(dv[i as int] == toks@[i as int]@);
            assert(pre.skip(1) =~= dv.skip(i + 1 as int));
        }
        let t = &toks[i];
        let tn = t.as_str().unicode_len();
        if crate::utils::str_eq(t.as_str(), "--recursive") {
            rec = true;
        } else if crate::utils::str_eq(t.as_str(), "--directory") {
            dir = true;
        } else if tn > 1 && t.as_str().get_char(0) == '-' && t.as_str().get_char(1) == '-' {
            return Err(t.clone());
        } else if tn > 1 && t.as_str().get_char(0) == '-' {
            let ghost cs = t@.skip(1);
            let ghost flags0 = (rec, dir, hum, lst);
            let ghost file0 = match file {
                Option::Some(ref s) => Option::Some(s@),
                Option::None => Option::<Seq<char>>::None,
            };
            let mut j: usize = 1;
            proof {
                assert(cs.skip(j - 1) =~= cs);
                assert(ls_parse(dv.skip(1), (false, false, false, false), Option::None)
                    == ls_parse(pre, flags0, file0));
            }
            while j < tn
                invariant
                    1 <= j <= tn,
                    tn == t@.len(),
                    cs == t@.skip(1),
                    apply_short(cs, flags0) == apply_short(cs.skip(j - 1), (rec, dir, hum, lst)),
                decreases tn - j,
            {
                let ghost cpre = cs.skip(j - 1);
                proof {
                    assert(cpre[0] == cs[j - 1] && cs[j - 1] == t@[j as int]);
                    assert(cpre.skip(1) =~= cs.skip(j as int));
                }
                let c = t.as_str().get_char(j);
                if c == 'R' {
                    rec = true;
                } else if c == 'd' {
                    dir = true;
                } else if c == 'h' {
                    hum = true;
                } else if c == 'l' {
                    lst = true;
                } else {
                    proof {
                        assert(apply_short(cs, flags0) is None);
                    }
                    return Err(t.clone());
                }
                j += 1;
            }
            proof {
                assert(cs.skip(j - 1) =~= Seq::<char>::empty());
            }
        } else if file.is_some() {
            return Err(t.clone());
        } else {
            file = Option::Some(t.clone());
        }
        i += 1;
    }
    proof {
        assert(dv.skip(i as int) =~= Seq::<Seq<char>>::empty());
    }
    Ok(LsArgs { recursive: rec, directory: dir, human: hum, list: lst, file })
}

// ---------------------------------------------------------------------------
// ls: formatting.
// ---------------------------------------------------------------------------

/// A size rendered as a decimal byte count, or in human units.
pub open spec fn size_text_nat(n: nat, human: bool) -> Seq<char> {
    if human {
        crate::utils::human_size_spec(n)
    } else {
        dec_str(n)
    }
}

/// A listed name: directories are styled, files are plain.
pub open spec fn ls_name_fmt(e: Entry) -> Seq<char> {
    if e.is_dir {
        crate::render::dir_styled(e.filename@)
    } else {
        e.filename@
    }
}

/// One long-format line: a fixed permission prefix, the size, the date and
/// the name.
pub open spec fn ls_long_line(e: Entry, human: bool) -> Seq<char> {
    (if e.is_dir {
        "dr-xr-xr-x\t2 root\troot"@
    } else {
        "-r--r--r--\t1 root\troot"@
    }) + seq!['\t'] + size_text_nat(e.size as nat, human) + seq!['\t'] + crate::filesystem::date_text(
        e.modified,
    ) + seq![' '] + ls_name_fmt(e) + nl()
}

/// The long-format lines of all the entries, in order.
pub open spec fn ls_long_lines(es: Seq<Entry>, human: bool) -> Seq<char>
    decreases es.len(),
{
    if es.len() == 0 {
        Seq::<char>::empty()
    } else {
        ls_long_lines(es.drop_last(), human) + ls_long_line(es.last(), human)
    }
}

/// The listed names of all the entries, in order.
pub open spec fn ls_short_names(es: Seq<Entry>) -> Seq<Seq<char>> {
    es.map_values(|e: Entry| ls_name_fmt(e))
}

/// The sizes summed, stopping at the top of `u64`.
pub open spec fn sizes_total(es: Seq<Entry>) -> nat
    decreases es.len(),
{
    if es.len() == 0 {
        0
    } else {
        let p = sizes_total(es.drop_last());
        if p + es.last().size <= u64::MAX as nat {
            (p + es.last().size) as nat
        } else {
            u64::MAX as nat
        }
    }
}

/// The pieces concatenated.
pub open spec fn concat_items(items: Seq<Seq<char>>) -> Seq<char>
    decreases items.len(),
{
    if items.len() == 0 {
        Seq::<char>::empty()
    } else {
        concat_items(items.drop_last()) + items.last()
    }
}

/// The listing of one directory.  With `-l` a `total` line and one long
/// line per entry; otherwise the names joined by tabs with a closing
/// newline.  With `-R` the directory's own label heads the listing and
/// every child directory's listing follows, labelled by its path.
pub open spec fn ls_dir_listing(e: Entry, human: bool, list: bool, rec: bool, label: Seq<char>)
    -> Seq<char>
    decreases e, 1int,
{
    let prefix = if rec {
        label + seq![':'] + nl()
    } else {
        Seq::<char>::empty()
    };
    if list {
        nl() + prefix + "total "@ + size_text_nat(sizes_total(e.entries@), human) + nl()
            + ls_long_lines(e.entries@, human) + if rec {
            concat_items(ls_subdir_items(e.entries@, human, list, label))
        } else {
            Seq::<char>::empty()
        }
    } else {
        nl() + prefix + crate::render::join_lines(
            ls_short_names(e.entries@).push(nl()) + if rec {
                ls_subdir_items(e.entries@, human, list, label)
            } else {
                Seq::<Seq<char>>::empty()
            },
            seq!['\t'],
        )
    }
}

/// The recursive listings of the child directories among the entries, in
/// order, each under its extended label.
pub open spec fn ls_subdir_items(es: Seq<Entry>, human: bool, list: bool, label: Seq<char>)
    -> Seq<Seq<char>>
    decreases es, 0int,
{
    if es.len() == 0 {
        Seq::<Seq<char>>::empty()
    } else {
        let rest = ls_subdir_items(es.drop_last(), human, list, label);
        let last = es.last();
        if last.is_dir {
            rest.push(
                ls_dir_listing(last, human, list, true, label + seq!['/'] + last.filename@),
            )
        } else {
            rest
        }
    }
}

/// The listing of one entry by itself (a file, or a directory under `-d`).
pub open spec fn ls_single(e: Entry, list: bool, styled: bool) -> Seq<char> {
    let name = if styled {
        crate::render::dir_styled(e.filename@)
    } else {
        e.filename@
    };
    if list {
        nl() + (if styled {
            "dr-xr-xr-x\t2 root\troot"@
        } else {
            "-r--r--r--\t1 root\troot"@
        }) + seq!['\t'] + dec_str(e.size as nat) + seq!['\t'] + crate::filesystem::date_text(
            e.modified,
        ) + seq![' '] + name + nl()
    } else {
        nl() + name + nl()
    }
}

/// The listed form of one entry's name.
fn ls_name_string(e: &Entry) -> (r: String)
    ensures
        r@ == ls_name_fmt(*e),
{
    if e.is_dir {
        crate::render::paint_dir_name(e.filename.as_str())
    } else {
        e.filename.clone()
    }
}

/// Render one long-format line.
fn ls_long_line_string(e: &Entry, human: bool) -> (r: String)
    ensures
        r@ == ls_long_line(*e, human),
{
    let mut line: String = if e.is_dir {
        "dr-xr-xr-x\t2 root\troot".to_owned()
    } else {
        "-r--r--r--\t1 root\troot".to_owned()
    };
    push_char(&mut line, '\t');
    let sz = e.get_size(human);
    line.append(sz.as_str());
    push_char(&mut line, '\t');
    let dt = e.get_date_str();
    line.append(dt.as_str());
    push_char(&mut line, ' ');
    let nm = ls_name_string(e);
    line.append(nm.as_str());
    let nls = nl_str();
    line.append(nls.as_str());
    proof {
        assert(line@ =~= ls_long_line(*e, human));
    }
    line
}

/// Render the listing of one directory, as `ls_dir_listing` describes it.
#[verifier::loop_isolation(false)]
#[verifier::rlimit(100)]
pub fn ls_rec(e: &Entry, human: bool, list: bool, rec: bool, label: &str) -> (r: String)
    ensures
        r@ == ls_dir_listing(*e, human, list, rec, label@),
    decreases *e,
{
    let ghost es = e.entries@;
    let mut prefix = String::new();
    if rec {
        prefix.append(label);
        push_char(&mut prefix, ':');
        let nls = nl_str();
        prefix.append(nls.as_str());
    }
    let n = e.entries.len();
    let mut out = nl_str();
    out.append(prefix.as_str());
    if list {
        let mut total: u64 = 0;
        let mut i: usize = 0;
        proof {
            assert(es.subrange(0, 0) =~= Seq::<Entry>::empty());
        }
        while i < n
            invariant
                i <= n,
                total as nat == sizes_total(es.subrange(0, i as int)),
            decreases n - i,
        {
            proof {
                let p1 = es.subrange(0, i + 1 as int);
                assert(p1.drop_last() =~= es.subrange(0, i as int));
                assert(p1.last() == es[i as int]);
            }
            total = crate::utils::sat_add_u64(total, e.entries[i].size);
            i += 1;
        }
        proof {
            assert(es.subrange(0, n as int) =~= es);
        }
        out.append("total ");
        let tsz = if human {
            crate::utils::human_size(total)
        } else {
            u64_to_string(total)
        };
        out.append(tsz.as_str());
        let nls = nl_str();
        out.append(nls.as_str());
        let ghost head = nl() + prefix@ + "total "@ + size_text_nat(sizes_total(es), human)
            + nl();
        proof {
            assert(out@ =~= head);
        }
        let mut i: usize = 0;
        while i < n
            invariant
                i <= n,
                out@ == head + ls_long_lines(es.subrange(0, i as int), human),
            decreases n - i,
        {
            proof {
                let p1 = es.subrange(0, i + 1 as int);
                assert(p1.drop_last() =~= es.subrange(0, i as int));
                assert(p1.last() == es[i as int]);
            }
            let line = ls_long_line_string(&e.entries[i], human);
            out.append(line.as_str());
            i += 1;
        }
        proof {
            assert(es.subrange(0, n as int) =~= es);
        }
        if rec {
            let mut i: usize = 0;
            while i < n
                invariant
                    i <= n,
                    out@ == head + ls_long_lines(es, human) + concat_items(
                        ls_subdir_items(es.subrange(0, i as int), human, list, label@),
                    ),
                decreases n - i,
            {
                proof {
                    let p1 = es.subrange(0, i + 1 as int);
                    assert(p1.drop_last() =~= es.subrange(0, i as int));
                    assert(p1.last() == es[i as int]);
                }
                let child = &e.entries[i];
                if child.is_dir {
                    let mut clabel = label.to_owned();
                    push_char(&mut clabel, '/');
                    clabel.append(child.filename.as_str());
                    proof {
                        assert(clabel@ =~= label@ + seq!['/'] + child.filename@);
                    }
                    let sub = ls_rec(child, human, list, true, clabel.as_str());
                    out.append(sub.as_str());
                    proof {
                        let items0 = ls_subdir_items(es.subrange(0, i as int), human, list, label@);
                        let items1 = ls_subdir_items(
                            es.subrange(0, i + 1 as int),
                            human,
                            list,
                            label@,
                        );
                        assert(items1 == items0.push(sub@));
                        assert(items1.drop_last() =~= items0);
                        assert(concat_items(items1) =~= concat_items(items0) + sub@);
                    }
                }
                i += 1;
            }
            proof {
                assert(es.subrange(0, n as int) =~= es);
            }
        } else {
            proof {
                assert(out@ =~= ls_dir_listing(*e, human, list, rec, label@));
            }
        }
        proof {
            assert(out@ =~= ls_dir_listing(*e, human, list, rec, label@));
        }
        out
    } else {
        let mut names: Vec<String> = Vec::new();
        let mut i: usize = 0;
        proof {
            assert(es.subrange(0, 0) =~= Seq::<Entry>::empty());
            assert(names.deep_view() =~= ls_short_names(es.subrange(0, 0)));
        }
        while i < n
            invariant
                i <= n,
                names.deep_view() == ls_short_names(es.subrange(0, i as int)),
            decreases n - i,
        {
            let ghost prev = names.deep_view();
            let nm = ls_name_string(&e.entries[i]);
            names.push(nm);
            proof {
                let p1 = es.subrange(0, i + 1 as int);
                assert(p1.drop_last() =~= es.subrange(0, i as int));
                assert(p1.last() == es[i as int]);
                assert(names.deep_view() =~= prev.push(ls_name_fmt(es[i as int])));
                assert(ls_short_names(p1) =~= ls_short_names(es.subrange(0, i as int)).push(
                    ls_name_fmt(es[i as int]),
                ));
            }
            i += 1;
        }
        proof {
            assert(es.subrange(0, n as int) =~= es);
        }
        let ghost prev = names.deep_view();
        let nls = nl_str();
        names.push(nls);
        proof {
            assert(names.deep_view() =~= prev.push(nl()));
        }
        if rec {
            let mut i: usize = 0;
            proof {
                assert(names.deep_view() =~= ls_short_names(es).push(nl()) + ls_subdir_items(
                    es.subrange(0, 0),
                    human,
                    list,
                    label@,
                ));
            }
            while i < n
                invariant
                    i <= n,
                    names.deep_view() == ls_short_names(es).push(nl()) + ls_subdir_items(
                        es.subrange(0, i as int),
                        human,
                        list,
                        label@,
                    ),
                decreases n - i,
            {
                proof {
                    let p1 = es.subrange(0, i + 1 as int);
                    assert(p1.drop_last() =~= es.subrange(0, i as int));
                    assert(p1.last() == es[i as int]);
                }
                let child = &e.entries[i];
                if child.is_dir {
                    let mut clabel = label.to_owned();
                    push_char(&mut clabel, '/');
                    clabel.append(child.filename.as_str());
                    proof {
                        assert(clabel@ =~= label@ + seq!['/'] + child.filename@);
                    }
                    let ghost prev2 = names.deep_view();
                    let sub = ls_rec(child, human, list, true, clabel.as_str());
                    names.push(sub);
                    proof {
                        assert(names.deep_view() =~= prev2.push(
                            ls_dir_listing(
                                es[i as int],
                                human,
                                list,
                                true,
                                label@ + seq!['/'] + es[i as int].filename@,
                            ),
                        ));
                    }
                }
                i += 1;
            }
            proof {
                assert(es.subrange(0, n as int) =~= es);
            }
        }
        crate::render::append_join_lines(&mut out, &names, 0, names.len(), "\t");
        proof {
            reveal_strlit("\t");
            assert(("\t")@ =~= seq!['\t']);
            assert(names.deep_view().subrange(0, names.deep_view().len() as int) =~= names
                .deep_view());
            if !rec {
                assert(names.deep_view() =~= ls_short_names(es).push(nl()));
            }
            assert(out@ =~= ls_dir_listing(*e, human, list, rec, label@));
        }
        out
    }
}

/// Render the listing of one entry by itself.
fn ls_render_single(e: &Entry, list: bool, styled: bool) -> (r: String)
    ensures
        r@ == ls_single(*e, list, styled),
{
    let name: String = if styled {
        crate::render::paint_dir_name(e.filename.as_str())
    } else {
        e.filename.clone()
    };
    let mut out = nl_str();
    if list {
        if styled {
            out.append("dr-xr-xr-x\t2 root\troot");
        } else {
            out.append("-r--r--r--\t1 root\troot");
        }
        push_char(&mut out, '\t');
        let sz = u64_to_string(e.size);
        out.append(sz.as_str());
        push_char(&mut out, '\t');
        let dt = e.get_date_str();
        out.append(dt.as_str());
        push_char(&mut out, ' ');
    }
    out.append(name.as_str());
    let nls = nl_str();
    out.append(nls.as_str());
    proof {
        assert(out@ =~= ls_single(*e, list, styled));
    }
    out
}

/// What `ls` leaves behind.
pub open spec fn ls_post(root: Entry, o: TermState, n: TermState, r: CmdOut, line: Seq<char>)
    -> bool {
    &&& r.nav is None
    &&& r.pager is None
    &&& ({
        let toks = split_on(line, ' ');
        match ls_parse(toks.skip(1), (false, false, false, false), Option::None) {
            Err(t) => r.out@ == solo_seq("ls: unexpected argument: "@ + t) && state_after_solo(
                o,
                n,
            ),
            Ok(pf) => {
                let label = match pf.1 {
                    Option::Some(f) => f,
                    Option::None => ".".view(),
                };
                let joined = joined_path(o.path@, label);
                &&& match root.lookup(joined) {
                    Option::None => r.out@ == nl() + label + ": No such file or directory"@
                        + nl() + prompt(),
                    Option::Some(e) => if !pf.0.1 && e.is_dir {
                        r.out@ == ls_dir_listing(e, pf.0.2, pf.0.3, pf.0.0, label) + prompt()
                    } else {
                        r.out@ == ls_single(e, pf.0.3, pf.0.1 && e.is_dir) + prompt()
                    },
                }
                &&& n.cursor_x == prompt_len()
                &&& n.cursor_y == sat_y(o.cursor_y as nat, crate::utils::count_char(r.out@, '\n'))
                &&& n.path == o.path
                &&& n.height == o.height
                &&& n.width == o.width
                &&& n.history == o.history
            },
        }
    })
}

/// `ls`: list a directory's contents, one entry, or (with `-R`) a whole
/// subtree; the cursor row advances by the number of lines printed.
pub fn ls(root: &Entry, state: &mut TermState, cmdline: &str) -> (r: CmdOut)
    ensures
        ls_post(*root, *old(state), *final(state), r, cmdline@),
{
    let toks = crate::utils::split_str(cmdline, ' ');
    proof {
        crate::utils::lemma_split_on_nonempty(cmdline@, ' ');
    }
    match parse_ls_args(&toks) {
        Err(t) => {
            let mut msg = "ls: unexpected argument: ".to_owned();
            msg.append(t.as_str());
            CmdOut { out: solo_out(state, msg.as_str()), nav: Option::None, pager: Option::None }
        },
        Ok(a) => {
            let label: String = match a.file {
                Option::Some(f) => f,
                Option::None => {
                    let d = ".".to_owned();
                    proof {
                        reveal_strlit(".");
                    }
                    d
                },
            };
            let joined = join_path(state.path.as_str(), label.as_str());
            let mut out: String;
            match root.get_file(joined.as_str()) {
                Err(_) => {
                    out = nl_str();
                    out.append(label.as_str());
                    out.append(": No such file or directory");
                    let nls = nl_str();
                    out.append(nls.as_str());
                },
                Ok(e) => {
                    if !a.directory && e.is_dir {
                        out = ls_rec(e, a.human, a.list, a.recursive, label.as_str());
                    } else {
                        out = ls_render_single(e, a.list, a.directory && e.is_dir);
                    }
                },
            }
            let p = prompt_str();
            out.append(p.as_str());
            let rows = crate::utils::count_char_str(out.as_str(), '\n');
            state.cursor_x = 2;
            state.cursor_y = crate::utils::sat_add(state.cursor_y, rows);
            CmdOut { out, nav: Option::None, pager: Option::None }
        },
    }
}

// ---------------------------------------------------------------------------
// Dispatch.
// ---------------------------------------------------------------------------

/// The command word of a line: everything before its first space.
pub open spec fn first_token(line: Seq<char>) -> Seq<char> {
    match first_index_of(line, ' ') {
        Option::Some(i) => line.subrange(0, i as int),
        Option::None => line,
    }
}

/// What a line with an unknown command word leaves behind.
pub open spec fn not_found_post(o: TermState, n: TermState, r: CmdOut, token: Seq<char>) -> bool {
    &&& r.out@ == solo_seq("command not found: "@ + token + ", try using help"@)
    &&& r.nav is None
    &&& r.pager is None
    &&& n.cursor_x == prompt_len()
    &&& n.cursor_y == sat_y(o.cursor_y as nat, 3)
    &&& n.path == o.path
    &&& n.height == o.height
    &&& n.width == o.width
    &&& n.history == o.history
}

/// What dispatching one command line leaves behind: the post-state of the
/// command its first word names, or the not-found message.  The recognized
/// words are exactly the registered command names.
pub open spec fn dispatch_post(
    root: Entry,
    store: ContentStore,
    o: TermState,
    n: TermState,
    r: CmdOut,
    line: Seq<char>,
) -> bool {
    let t = first_token(line);
    if t == "clear"@ {
        clear_post(o, n, r)
    } else if t == "pwd"@ {
        pwd_post(o, n, r)
    } else if t == "whoami"@ {
        whoami_post(o, n, r)
    } else if t == "whereis"@ {
        whereis_post(o, n, r)
    } else if t == "ls"@ {
        ls_post(root, o, n, r, line)
    } else if t == "cd"@ {
        cd_post(root, o, n, r, line)
    } else if t == "cat"@ {
        cat_post(root, store, o, n, r, line)
    } else if t == "less"@ {
        less_post(root, store, o, n, r, line)
    } else if t == "echo"@ {
        echo_post(o, n, r, line)
    } else if t == "history"@ {
        history_post(o, n, r)
    } else if t == "help"@ {
        help_post(o, n, r)
    } else {
        not_found_post(o, n, r, t)
    }
}

/// The dispatcher and the registry agree: a command word reaches a
/// command, rather than the not-found message, exactly when it is a
/// registered name.
pub proof fn lemma_dispatch_covers_registry(t: Seq<char>)
    ensures
        (t == "clear"@ || t == "pwd"@ || t == "whoami"@ || t == "whereis"@ || t == "ls"@ || t
            == "cd"@ || t == "cat"@ || t == "less"@ || t == "echo"@ || t == "history"@ || t
            == "help"@) <==> is_command_name(t),
{
    let names = command_names();
    if t == "clear"@ {
        assert(names[0] == t);
    } else if t == "pwd"@ {
        assert(names[1] == t);
    } else if t == "whoami"@ {
        assert(names[2] == t);
    } else if t == "whereis"@ {
        assert(names[3] == t);
    } else if t == "ls"@ {
        assert(names[4] == t);
    } else if t == "cd"@ {
        assert(names[5] == t);
    } else if t == "cat"@ {
        assert(names[6] == t);
    } else if t == "less"@ {
        assert(names[7] == t);
    } else if t == "echo"@ {
        assert(names[8] == t);
    } else if t == "history"@ {
        assert(names[9] == t);
    } else if t == "help"@ {
        assert(names[10] == t);
    }
}

/// Dispatch one command line to the command its first word names.
pub fn run_command(root: &Entry, store: &ContentStore, state: &mut TermState, cmdline: &str) -> (r:
    CmdOut)
    ensures
        dispatch_post(*root, *store, *old(state), *final(state), r, cmdline@),
{
    let n = cmdline.unicode_len();
    let token: &str = match find_char(cmdline, ' ') {
        Option::Some(i) => {
            let t = cmdline.substring_char(0, i);
            proof {
                assert(t@ =~= first_token(cmdline@));
            }
            t
        },
        Option::None => cmdline,
    };
    if crate::utils::str_eq(token, "clear") {
        clear(state, cmdline)
    } else if crate::utils::str_eq(token, "pwd") {
        pwd(state, cmdline)
    } else if crate::utils::str_eq(token, "whoami") {
        whoami(state, cmdline)
    } else if crate::utils::str_eq(token, "whereis") {
        whereis(state, cmdline)
    } else if crate::utils::str_eq(token, "ls") {
        ls(root, state, cmdline)
    } else if crate::utils::str_eq(token, "cd") {
        cd(root, state, cmdline)
    } else if crate::utils::str_eq(token, "cat") {
        cat(root, store, state, cmdline)
    } else if crate::utils::str_eq(token, "less") {
        less(root, store, state, cmdline)
    } else if crate::utils::str_eq(token, "echo") {
        echo(state, cmdline)
    } else if crate::utils::str_eq(token, "history") {
        history(state, cmdline)
    } else if crate::utils::str_eq(token, "help") {
        help(state, cmdline)
    } else {
        let mut msg = "command not found: ".to_owned();
        msg.append(token);
        msg.append(", try using help");
        state.cursor_y = crate::utils::sat_add(state.cursor_y, 1);
        let out = solo_out(state, msg.as_str());
        proof {
            assert(final(state).cursor_y == sat_y(old(state).cursor_y as nat, 3));
        }
        CmdOut { out, nav: Option::None, pager: Option::None }
    }
}

} // verus!

//! Building the output text: prompt and newline shapes, repeated escape
//! moves, full-screen clears, and the two styled fragments (directory
//! names and the pager's end marker).

use vstd::prelude::*;

use crate::ansi::{esc_seq, Key};
use crate::utils::push_char;

verus! {

/// The newline the terminal needs: line feed plus carriage return.
pub open spec fn nl() -> Seq<char> {
    seq!['\n', '\r']
}

/// The shell prompt.
pub open spec fn prompt() -> Seq<char> {
    seq!['$', ' ']
}

/// The width of the shell prompt in columns.
pub open spec fn prompt_len() -> nat {
    2
}

/// One erase step: move left, blank the cell, move left again.
pub open spec fn erase_one() -> Seq<char> {
    esc_seq(Key::Left) + seq![' '] + esc_seq(Key::Left)
}

/// `s` repeated `n` times.
pub open spec fn repeat_seq(s: Seq<char>, n: nat) -> Seq<char>
    decreases n,
{
    if n == 0 {
        Seq::<char>::empty()
    } else {
        repeat_seq(s, (n - 1) as nat) + s
    }
}

/// A full-screen clear: scroll everything out with newlines, move back up,
/// return to the left edge.
pub open spec fn clear_screen_seq(height: nat) -> Seq<char> {
    repeat_seq(seq!['\n'], height) + repeat_seq(esc_seq(Key::Up), height) + seq!['\r']
}

/// A message on its own line between the current line and a fresh prompt.
pub open spec fn solo_seq(msg: Seq<char>) -> Seq<char> {
    nl() + msg + nl() + prompt()
}

/// The newline, as a string.
pub fn nl_str() -> (r: String)
    ensures
        r@ == nl(),
{
    let s = "\n\r".to_owned();
    proof {
        reveal_strlit("\n\r");
        assert(s@ =~= nl());
    }
    s
}

/// The prompt, as a string.
pub fn prompt_str() -> (r: String)
    ensures
        r@ == prompt(),
{
    let s = "$ ".to_owned();
    proof {
        reveal_strlit("$ ");
        assert(s@ =~= prompt());
    }
    s
}

/// The escape sequence of a key, as a string.
pub fn esc_str(k: Key) -> (r: String)
    ensures
        r@ == esc_seq(k),
{
    let mut s = String::new();
    push_char(&mut s, '\u{1b}');
    match k {
        Key::Up => {
            push_char(&mut s, '[');
            push_char(&mut s, 'A');
        },
        Key::Down => {
            push_char(&mut s, '[');
            push_char(&mut s, 'B');
        },
        Key::Right => {
            push_char(&mut s, '[');
            push_char(&mut s, 'C');
        },
        Key::Left => {
            push_char(&mut s, '[');
            push_char(&mut s, 'D');
        },
        Key::PageUp => {
            push_char(&mut s, '[');
            push_char(&mut s, '5');
            push_char(&mut s, '~');
        },
        Key::PageDown => {
            push_char(&mut s, '[');
            push_char(&mut s, '6');
            push_char(&mut s, '~');
        },
        Key::Home => {
            push_char(&mut s, '[');
            push_char(&mut s, 'H');
        },
        Key::End => {
            push_char(&mut s, '[');
            push_char(&mut s, 'F');
        },
        Key::Insert => {
            push_char(&mut s, '[');
            push_char(&mut s, '2');
            push_char(&mut s, '~');
        },
        Key::Function => {
            push_char(&mut s, 'O');
            push_char(&mut s, 'P');
        },
    }
    proof {
        assert(s@ =~= esc_seq(k));
    }
    s
}

/// Append `s` repeated `n` times to `out`.
pub fn append_repeat(out: &mut String, s: &str, n: usize)
    ensures
        final(out)@ == old(out)@ + repeat_seq(s@, n as nat),
{
    let mut i: usize = 0;
    while i < n
        invariant
            i <= n,
            out@ == old(out)@ + repeat_seq(s@, i as nat),
        decreases n - i,
    {
        out.append(s);
        i += 1;
    }
}

/// Append a full-screen clear for the given height to `out`.
pub fn append_clear_screen(out: &mut String, height: usize)
    ensures
        final(out)@ == old(out)@ + clear_screen_seq(height as nat),
{
    let up = esc_str(Key::Up);
    append_repeat(out, "\n", height);
    append_repeat(out, up.as_str(), height);
    push_char(out, '\r');
    proof {
        reveal_strlit("\n");
        assert(("\n")@ =~= seq!['\n']);
        assert(old(out)@ + clear_screen_seq(height as nat) =~= out@);
    }
}

/// Append a message on its own line, followed by a fresh prompt.
pub fn append_solo(out: &mut String, msg: &str)
    ensures
        final(out)@ == old(out)@ + solo_seq(msg@),
{
    let nls = nl_str();
    out.append(nls.as_str());
    out.append(msg);
    out.append(nls.as_str());
    let p = prompt_str();
    out.append(p.as_str());
    proof {
        assert(out@ =~= old(out)@ + solo_seq(msg@));
    }
}

/// The segments joined with the (multi-character) separator between
/// neighbours; empty for an empty family.
pub open spec fn join_lines(segs: Seq<Seq<char>>, sep: Seq<char>) -> Seq<char>
    decreases segs.len(),
{
    if segs.len() == 0 {
        Seq::<char>::empty()
    } else if segs.len() == 1 {
        segs[0]
    } else {
        join_lines(segs.drop_last(), sep) + sep + segs.last()
    }
}

/// Append `lines[from..to]` to `out`, joined with `sep`.
pub fn append_join_lines(out: &mut String, lines: &Vec<String>, from: usize, to: usize, sep: &str)
    requires
        from <= to <= lines@.len(),
    ensures
        final(out)@ == old(out)@ + join_lines(
            lines.deep_view().subrange(from as int, to as int),
            sep@,
        ),
{
    let ghost dv = lines.deep_view();
    if from == to {
        proof {
            assert(dv.subrange(from as int, to as int) =~= Seq::<Seq<char>>::empty());
            assert(out@ =~= old(out)@ + join_lines(dv.subrange(from as int, to as int), sep@));
        }
        return;
    }
    out.append(lines[from].as_str());
    let mut i: usize = from + 1;
    proof {
        assert(dv.subrange(from as int, from + 1 as int) =~= seq![dv[from as int]]);
        assert(dv[from as int] == lines@[from as int]@);
    }
    while i < to
        invariant
            from < i <= to,
            to <= lines@.len(),
            dv == lines.deep_view(),
            out@ == old(out)@ + join_lines(dv.subrange(from as int, i as int), sep@),
        decreases to - i,
    {
        out.append(sep);
        out.append(lines[i].as_str());
        proof {
            let p1 = dv.subrange(from as int, i + 1 as int);
            assert(p1.drop_last() =~= dv.subrange(from as int, i as int));
            assert(p1.last() == dv[i as int]);
            assert(dv[i as int] == lines@[i as int]@);
        }
        i += 1;
    }
}

/// The strings joined with tabs, as one string.
pub fn append_tab_joined(items: &Vec<String>) -> (r: String)
    ensures
        r@ == join_lines(items.deep_view(), seq!['\t']),
{
    let mut out = String::new();
    append_join_lines(&mut out, items, 0, items.len(), "\t");
    proof {
        reveal_strlit("\t");
        assert(("\t")@ =~= seq!['\t']);
        assert(items.deep_view().subrange(0, items.deep_view().len() as int) =~= items.deep_view());
    }
    out
}

/// The styled rendering of a directory name: bold blue, then reset.
pub open spec fn dir_styled(name: Seq<char>) -> Seq<char> {
    seq!['\u{1b}', '[', '1', ';', '3', '4', 'm'] + name + seq!['\u{1b}', '[', '0', 'm']
}

/// Relies on `ansi_term`: a bold, blue-foreground style paints a string as
/// `ESC [ 1 ; 3 4 m`, the text, then the reset `ESC [ 0 m`.
#[verifier::external_body]
pub fn paint_dir_name(name: &str) -> (r: String)
    ensures
        r@ == dir_styled(name@),
{
    ansi_term::Colour::Blue.bold().paint(name).to_string()
}

/// The styled rendering of the pager's end marker: black text on a pale
/// green background, then reset.
pub open spec fn end_marker_styled(text: Seq<char>) -> Seq<char> {
    seq!['\u{1b}', '[', '4', '8', ';', '2', ';', '2', '3', '4', ';', '2', '5', '5', ';', '2', '2',
        '9', ';', '3', '0', 'm'] + text + seq!['\u{1b}', '[', '0', 'm']
}

/// Relies on `ansi_term`: a style with an RGB(234, 255, 229) background and
/// a black foreground paints a string as `ESC [ 48 ; 2 ; 234 ; 255 ; 229 ;
/// 30 m`, the text, then the reset `ESC [ 0 m`.
#[verifier::external_body]
pub fn paint_end_marker(text: &str) -> (r: String)
    ensures
        r@ == end_marker_styled(text@),
{
    ansi_term::Style::new()
        .on(ansi_term::Colour::RGB(234, 255, 229))
        .fg(ansi_term::Colour::Black)
        .paint(text)
        .to_string()
}

} // verus!

//! Recognition of the escape sequences the applications understand, and
//! the escape literals the session emits for cursor movement and redraws.

use vstd::prelude::*;

verus! {

/// A control key encoded by a recognized escape sequence.
#[derive(Clone, Copy, PartialEq, Eq, Structural, Debug)]
pub enum Key {
    Up,
    Down,
    Right,
    Left,
    PageUp,
    PageDown,
    Home,
    End,
    Insert,
    Function,
}

/// The byte sequence that encodes each recognized key.  The four function
/// keys all carry the same no-op meaning and stand for `ESC O P`.
pub open spec fn esc_seq(k: Key) -> Seq<char> {
    match k {
        Key::Up => seq!['\u{1b}', '[', 'A'],
        Key::Down => seq!['\u{1b}', '[', 'B'],
        Key::Right => seq!['\u{1b}', '[', 'C'],
        Key::Left => seq!['\u{1b}', '[', 'D'],
        Key::PageUp => seq!['\u{1b}', '[', '5', '~'],
        Key::PageDown => seq!['\u{1b}', '[', '6', '~'],
        Key::Home => seq!['\u{1b}', '[', 'H'],
        Key::End => seq!['\u{1b}', '[', 'F'],
        Key::Insert => seq!['\u{1b}', '[', '2', '~'],
        Key::Function => seq!['\u{1b}', 'O', 'P'],
    }
}

/// The key an accumulated buffer encodes, if it is exactly a recognized
/// sequence.  The function keys `ESC O P` through `ESC O S` all map to
/// `Function`.
pub open spec fn matches_key(s: Seq<char>) -> Option<Key> {
    if s == esc_seq(Key::Up) {
        Option::Some(Key::Up)
    } else if s == esc_seq(Key::Down) {
        Option::Some(Key::Down)
    } else if s == esc_seq(Key::Right) {
        Option::Some(Key::Right)
    } else if s == esc_seq(Key::Left) {
        Option::Some(Key::Left)
    } else if s == esc_seq(Key::PageUp) {
        Option::Some(Key::PageUp)
    } else if s == esc_seq(Key::PageDown) {
        Option::Some(Key::PageDown)
    } else if s == esc_seq(Key::Home) {
        Option::Some(Key::Home)
    } else if s == esc_seq(Key::End) {
        Option::Some(Key::End)
    } else if s == esc_seq(Key::Insert) {
        Option::Some(Key::Insert)
    } else if s.len() == 3 && s[0] == '\u{1b}' && s[1] == 'O' && ('P' <= s[2] && s[2] <= 'S') {
        Option::Some(Key::Function)
    } else {
        Option::None
    }
}

/// Whether the buffer is a proper prefix of some recognized sequence, so
/// that further characters could still complete it.
pub open spec fn is_strict_esc_prefix(s: Seq<char>) -> bool {
    ||| s == seq!['\u{1b}']
    ||| s == seq!['\u{1b}', '[']
    ||| s == seq!['\u{1b}', 'O']
    ||| s == seq!['\u{1b}', '[', '5']
    ||| s == seq!['\u{1b}', '[', '6']
    ||| s == seq!['\u{1b}', '[', '2']
}

/// What an accumulated escape buffer means: a recognized key, a prefix
/// still worth buffering, or a malformed sequence to discard.
pub enum EscMatch {
    Match(Key),
    Prefix,
    Invalid,
}

/// Classify an accumulated escape buffer against the table of recognized
/// sequences.
pub fn classify_escape(buf: &Vec<char>) -> (r: EscMatch)
    ensures
        match matches_key(buf@) {
            Option::Some(k) => r == EscMatch::Match(k),
            Option::None => if is_strict_esc_prefix(buf@) {
                r == EscMatch::Prefix
            } else {
                r == EscMatch::Invalid
            },
        },
{
    let n = buf.len();
    if n == 0 || buf[0] != '\u{1b}' {
        return EscMatch::Invalid;
    }
    if n == 1 {
        proof {
            assert(buf@ =~= seq!['\u{1b}']);
        }
        return EscMatch::Prefix;
    }
    if buf[1] == '[' {
        if n == 2 {
            proof {
                assert(buf@ =~= seq!['\u{1b}', '[']);
            }
            return EscMatch::Prefix;
        }
        if n == 3 {
            let c = buf[2];
            if c == 'A' {
                proof {
                    assert(buf@ =~= esc_seq(Key::Up));
                }
                return EscMatch::Match(Key::Up);
            }
            if c == 'B' {
                proof {
                    assert(buf@ =~= esc_seq(Key::Down));
                }
                return EscMatch::Match(Key::Down);
            }
            if c == 'C' {
                proof {
                    assert(buf@ =~= esc_seq(Key::Right));
                }
                return EscMatch::Match(Key::Right);
            }
            if c == 'D' {
                proof {
                    assert(buf@ =~= esc_seq(Key::Left));
                }
                return EscMatch::Match(Key::Left);
            }
            if c == 'H' {
                proof {
                    assert(buf@ =~= esc_seq(Key::Home));
                }
                return EscMatch::Match(Key::Home);
            }
            if c == 'F' {
                proof {
                    assert(buf@ =~= esc_seq(Key::End));
                }
                return EscMatch::Match(Key::End);
            }
            if c == '5' {
                proof {
                    assert(buf@ =~= seq!['\u{1b}', '[', '5']);
                }
                return EscMatch::Prefix;
            }
            if c == '6' {
                proof {
                    assert(buf@ =~= seq!['\u{1b}', '[', '6']);
                }
                return EscMatch::Prefix;
            }
            if c == '2' {
                proof {
                    assert(buf@ =~= seq!['\u{1b}', '[', '2']);
                }
                return EscMatch::Prefix;
            }
            return EscMatch::Invalid;
        }
        if n == 4 && buf[3] == '~' {
            let c = buf[2];
            if c == '5' {
                proof {
                    assert(buf@ =~= esc_seq(Key::PageUp));
                }
                return EscMatch::Match(Key::PageUp);
            }
            if c == '6' {
                proof {
                    assert(buf@ =~= esc_seq(Key::PageDown));
                }
                return EscMatch::Match(Key::PageDown);
            }
            if c == '2' {
                proof {
                    assert(buf@ =~= esc_seq(Key::Insert));
                }
                return EscMatch::Match(Key::Insert);
            }
            return EscMatch::Invalid;
        }
        return EscMatch::Invalid;
    }
    if buf[1] == 'O' {
        if n == 2 {
            proof {
                assert(buf@ =~= seq!['\u{1b}', 'O']);
            }
            return EscMatch::Prefix;
        }
        if n == 3 && 'P' <= buf[2] && buf[2] <= 'S' {
            return EscMatch::Match(Key::Function);
        }
        return EscMatch::Invalid;
    }
    EscMatch::Invalid
}

} // verus!

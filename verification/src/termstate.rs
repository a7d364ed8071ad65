//! The shared session state: current working directory, terminal
//! dimensions, cursor counters and the command history.

use vstd::prelude::*;

verus! {

/// Mutable context shared by the applications of one session.  `path` is
/// the canonical path of the current working directory (empty at the root);
/// `history` is the append-only list of submitted command lines, kept here
/// so that it survives switches between applications.
pub struct TermState {
    pub path: String,
    pub cursor_x: usize,
    pub cursor_y: usize,
    pub height: usize,
    pub width: usize,
    pub history: Vec<String>,
}

impl TermState {
    /// A fresh session state: at the root, all counters zero, no history.
    pub fn new() -> (r: TermState)
        ensures
            r.path@.len() == 0,
            r.cursor_x == 0,
            r.cursor_y == 0,
            r.height == 0,
            r.width == 0,
            r.history@.len() == 0,
    {
        TermState {
            path: String::new(),
            cursor_x: 0,
            cursor_y: 0,
            height: 0,
            width: 0,
            history: Vec::new(),
        }
    }
}

} // verus!
